//! The part of an HTTP request that the server's rules read.

use vstd::prelude::*;
use vstd::string::*;

use crate::text::{same, texts};

verus! {

/// One header field. `name` is in lower case, `value` is the raw value.
pub struct HeaderField {
    pub name: String,
    pub value: Vec<u8>,
}

/// Method, target and header fields of a request.
pub struct RequestHead {
    pub method: String,
    pub path: String,
    pub query: Option<String>,
    pub headers: Vec<HeaderField>,
}

/// A byte that a header value may hold to count as text: visible ASCII, blank or tab.
pub open spec fn text_byte(b: u8) -> bool {
    0x20 <= b < 0x7f || b == 9
}

/// A header value that is text.
pub open spec fn is_header_text(value: Seq<u8>) -> bool {
    forall|i: int| 0 <= i < value.len() ==> text_byte(#[trigger] value[i])
}

/// The characters of a header value that is text.
pub open spec fn header_chars(value: Seq<u8>) -> Seq<char> {
    value.map_values(|b: u8| b as char)
}

/// A header value as text, where it is text.
pub open spec fn header_text_of(value: Seq<u8>) -> Option<Seq<char>> {
    if is_header_text(value) {
        Some(header_chars(value))
    } else {
        None
    }
}

/// A header value as text, where it is text.
pub fn header_text(value: &Vec<u8>) -> (r: Option<String>)
    ensures
        match r {
            Some(t) => header_text_of(value@) == Some(t@),
            None => header_text_of(value@) is None,
        },
{
    let mut t = String::new();
    let mut i: usize = 0;
    while i < value.len()
        invariant
            i <= value@.len(),
            t@ == header_chars(value@.take(i as int)),
            forall|j: int| 0 <= j < i ==> text_byte(#[trigger] value@[j]),
        decreases value@.len() - i,
    {
        let b: u8 = value[i];
        if !((0x20 <= b && b < 0x7f) || b == 9) {
            return None;
        }
        t.push(b as char);
        i = i + 1;
        proof {
            assert(t@ =~= header_chars(value@.take(i as int)));
        }
    }
    proof {
        assert(value@.take(i as int) =~= value@);
    }
    Some(t)
}

/// The values of the fields named `name`, in the order of the fields.
pub open spec fn values_of(headers: Seq<HeaderField>, name: Seq<char>) -> Seq<Seq<u8>>
    decreases headers.len(),
{
    if headers.len() == 0 {
        Seq::empty()
    } else {
        let rest = values_of(headers.drop_last(), name);
        if headers.last().name@ == name {
            rest.push(headers.last().value@)
        } else {
            rest
        }
    }
}

/// The text of the values that are text, in order.
pub open spec fn text_values(values: Seq<Seq<u8>>) -> Seq<Seq<char>>
    decreases values.len(),
{
    if values.len() == 0 {
        Seq::empty()
    } else {
        let rest = text_values(values.drop_last());
        match header_text_of(values.last()) {
            Some(t) => rest.push(t),
            None => rest,
        }
    }
}

/// The text of the first value, where there is one and it is text.
pub open spec fn first_text(values: Seq<Seq<u8>>) -> Option<Seq<char>> {
    if values.len() > 0 {
        header_text_of(values[0])
    } else {
        None
    }
}

impl RequestHead {
    /// The raw values of the fields named `name`.
    pub open spec fn values(self, name: Seq<char>) -> Seq<Seq<u8>> {
        values_of(self.headers@, name)
    }

    /// The query, empty where there is none.
    pub open spec fn query_text(self) -> Seq<char> {
        match self.query {
            Some(q) => q@,
            None => Seq::empty(),
        }
    }

    /// Every readable value of the fields named `name`, in order.
    pub fn header_texts(&self, name: &str) -> (r: Vec<String>)
        ensures
            texts(r@) == text_values(self.values(name@)),
    {
        let mut r: Vec<String> = Vec::new();
        let mut i: usize = 0;
        while i < self.headers.len()
            invariant
                i <= self.headers@.len(),
                texts(r@) == text_values(values_of(self.headers@.take(i as int), name@)),
            decreases self.headers@.len() - i,
        {
            let field = &self.headers[i];
            let ghost before = texts(r@);
            let ghost seen = values_of(self.headers@.take(i as int), name@);
            proof {
                assert(self.headers@.take(i + 1).drop_last() =~= self.headers@.take(i as int));
                assert(seen.push(field.value@).drop_last() =~= seen);
            }
            if same(field.name.as_str(), name) {
                if let Some(t) = header_text(&field.value) {
                    r.push(t);
                    proof {
                        assert(texts(r@) =~= before.push(t@));
                    }
                }
            }
            i = i + 1;
        }
        proof {
            assert(self.headers@.take(i as int) =~= self.headers@);
        }
        r
    }

    /// The first value of the fields named `name`, where it is text.
    pub fn first_header(&self, name: &str) -> (r: Option<String>)
        ensures
            match r {
                Some(t) => first_text(self.values(name@)) == Some(t@),
                None => first_text(self.values(name@)) is None,
            },
    {
        let mut i: usize = 0;
        proof {
            assert(values_of(self.headers@.take(0), name@) =~= Seq::empty());
        }
        while i < self.headers.len()
            invariant
                i <= self.headers@.len(),
                values_of(self.headers@.take(i as int), name@).len() == 0,
            decreases self.headers@.len() - i,
        {
            let field = &self.headers[i];
            proof {
                assert(self.headers@.take(i + 1).drop_last() =~= self.headers@.take(i as int));
            }
            if same(field.name.as_str(), name) {
                proof {
                    let head = self.headers@.take(i + 1);
                    assert(values_of(head, name@)[0] == field.value@);
                    lemma_values_prefix(self.headers@, name@, i + 1);
                }
                return header_text(&field.value);
            }
            i = i + 1;
        }
        proof {
            assert(self.headers@.take(i as int) =~= self.headers@);
        }
        None
    }
}

pub proof fn lemma_values_prefix(headers: Seq<HeaderField>, name: Seq<char>, k: int)
    requires
        0 <= k <= headers.len(),
    ensures
        values_of(headers.take(k), name).is_prefix_of(values_of(headers, name)),
    decreases headers.len(),
{
    if k == headers.len() {
        assert(headers.take(k) =~= headers);
    } else {
        lemma_values_prefix(headers.drop_last(), name, k);
        assert(headers.drop_last().take(k) =~= headers.take(k));
    }
}

/// The values of a header are those of the fields with its name, in their order; a field with
/// another name adds nothing.
pub proof fn law_fields_give_their_values(
    before: Seq<HeaderField>,
    field: HeaderField,
    name: Seq<char>,
)
    ensures
        values_of(Seq::<HeaderField>::empty(), name).len() == 0,
        field.name@ == name ==> values_of(before.push(field), name) == values_of(
            before,
            name,
        ).push(field.value@),
        field.name@ != name ==> values_of(before.push(field), name) == values_of(before, name),
{
    assert(before.push(field).drop_last() =~= before);
}

/// A value is a text where it holds visible characters, spaces and tabs only, and then the
/// text that has just those; a value that is no text is passed over in a list, and the first
/// value of a header is its text only where it is one.
pub proof fn law_values_are_texts(values: Seq<Seq<u8>>, value: Seq<u8>, i: int)
    requires
        0 <= i < value.len(),
    ensures
        header_text_of(value) is Some ==> {
            &&& header_text_of(value)->0.len() == value.len()
            &&& header_text_of(value)->0[i] as u32 == value[i]
            &&& (32 <= value[i] <= 126 || value[i] == 9)
        },
        (forall|k: int| 0 <= k < value.len() ==> 32 <= #[trigger] value[k] <= 126 || value[k] == 9)
            ==> header_text_of(value) is Some,
        header_text_of(value) is Some ==> text_values(values.push(value)) == text_values(
            values,
        ).push(header_text_of(value)->0),
        header_text_of(value) is None ==> text_values(values.push(value)) == text_values(values),
        first_text(seq![value] + values) == header_text_of(value),
        first_text(Seq::empty()) is None,
{
    assert(values.push(value).drop_last() =~= values);
    if header_text_of(value) is Some {
        assert(text_byte(value[i]));
        assert(header_chars(value)[i] == value[i] as char);
    }
    if forall|k: int| 0 <= k < value.len() ==> 32 <= #[trigger] value[k] <= 126 || value[k] == 9 {
        assert forall|k: int| 0 <= k < value.len() implies text_byte(#[trigger] value[k]) by {
            assert(32 <= value[k] <= 126 || value[k] == 9);
        }
    }
}

/// The values of a header are those of the request's own fields.
pub proof fn law_requests_hold_their_values(req: RequestHead, name: Seq<char>)
    ensures
        req.values(name) == values_of(req.headers@, name),
{
}

} // verus!
