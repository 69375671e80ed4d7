//! Kernels that run notebooks and snippets: which there are, and how messages travel to
//! and from one over a stream.

use vstd::prelude::*;
use vstd::string::*;

use crate::json::{
    json_members, json_value, member_text, member_true, MemberView, parse_json, text_member,
    true_member,
};
use crate::serve::paths::{law_only_names_lead_on, names_in, names_of};
use crate::text::{
    begins, lemma_position, lemma_split_concat, lemma_split_pieces, opt_text, same, split, split_on,
    starts_with, texts,
};

verus! {

/// The largest message, in bytes, with the line feed that ends it.
pub const MAX_MESSAGE: usize = 8_388_608;

/// How long a kernel may take to start, in seconds.
pub const STARTUP_TIMEOUT_SECS: u64 = 35;

/// How many requests to a kernel wait at most.
pub const REQUEST_QUEUE: usize = 100;

/// Where the documentation of kernels is.
pub const KERNEL_DOCS_URL: &'static str = "https://zed.dev/docs/repl#changing-kernels";

/// A kernel that the browser host can run.
#[derive(Debug)]
pub struct WebKernelSpecification {
    pub name: String,
    /// The interpreter; the one that comes with the host where there is none.
    pub python: Option<String>,
}

/// A kernel, on the level of specifications.
pub struct WebKernelView {
    pub name: Seq<char>,
    pub python: Option<Seq<char>>,
}

impl WebKernelSpecification {
    pub open spec fn view(self) -> WebKernelView {
        WebKernelView { name: self.name@, python: opt_text(self.python) }
    }

    /// Whether two kernels are the same.
    pub fn same_as(&self, other: &WebKernelSpecification) -> (r: bool)
        ensures
            r == (self.view() == other.view()),
    {
        let python = match (&self.python, &other.python) {
            (Some(a), Some(b)) => same(a.as_str(), b.as_str()),
            (None, None) => true,
            _ => false,
        };
        python && same(self.name.as_str(), other.name.as_str())
    }
}

/// Kernels, on the level of specifications.
pub open spec fn kernel_views(v: Seq<WebKernelSpecification>) -> Seq<WebKernelView> {
    v.map_values(|k: WebKernelSpecification| k.view())
}

/// An environment that a project has.
#[derive(Debug)]
pub struct Toolchain {
    pub name: String,
    pub path: String,
}

/// Names and paths, on the level of specifications.
pub open spec fn toolchain_views(v: Seq<Toolchain>) -> Seq<(Seq<char>, Seq<char>)> {
    v.map_values(|t: Toolchain| (t.name@, t.path@))
}

/// Whether one of the environments is at a path.
pub open spec fn has_path(v: Seq<(Seq<char>, Seq<char>)>, path: Seq<char>) -> bool {
    exists|i: int| 0 <= i < v.len() && (#[trigger] v[i]).1 == path
}

/// The kernels of environments, one for each path, by the first that is there.
pub open spec fn distinct_kernels(v: Seq<(Seq<char>, Seq<char>)>) -> Seq<WebKernelView>
    decreases v.len(),
{
    if v.len() == 0 {
        Seq::empty()
    } else {
        let rest = distinct_kernels(v.drop_last());
        if has_path(v.drop_last(), v.last().1) {
            rest
        } else {
            rest.push(WebKernelView { name: v.last().0, python: Some(v.last().1) })
        }
    }
}

/// The kernel that comes with the host.
pub open spec fn sandbox_kernel() -> WebKernelView {
    WebKernelView { name: "Python (sandbox)"@, python: None }
}

/// The kernels of a project: the one that comes with the host, and then one for each path of
/// its environments, those of the user before the others.
pub fn python_env_kernel_specifications(toolchains: &Vec<Toolchain>) -> (r: Vec<
    WebKernelSpecification,
>)
    ensures
        kernel_views(r@) == seq![sandbox_kernel()] + distinct_kernels(toolchain_views(toolchains@)),
{
    let mut r: Vec<WebKernelSpecification> = Vec::new();
    r.push(WebKernelSpecification { name: "Python (sandbox)".to_owned(), python: None });
    let ghost all = toolchain_views(toolchains@);
    let mut i: usize = 0;
    proof {
        assert(kernel_views(r@) =~= seq![sandbox_kernel()] + distinct_kernels(all.take(0)));
    }
    while i < toolchains.len()
        invariant
            i <= toolchains@.len(),
            all == toolchain_views(toolchains@),
            kernel_views(r@) == seq![sandbox_kernel()] + distinct_kernels(all.take(i as int)),
        decreases toolchains@.len() - i,
    {
        let ghost done = all.take(i as int);
        let ghost before = kernel_views(r@);
        let path = toolchains[i].path.as_str();
        let mut seen = false;
        let mut j: usize = 0;
        while j < i
            invariant
                j <= i,
                i < toolchains@.len(),
                all == toolchain_views(toolchains@),
                done == all.take(i as int),
                seen == has_path(done.take(j as int), path@),
            decreases i - j,
        {
            proof {
                let next = done.take(j + 1);
                assert(next[j as int].1 == toolchains@[j as int].path@);
                if seen {
                    let k = choose|k: int|
                        0 <= k < done.take(j as int).len() && (#[trigger] done.take(
                            j as int,
                        )[k]).1 == path@;
                    assert(next[k].1 == path@);
                }
                if has_path(next, path@) && next[j as int].1 != path@ {
                    let k = choose|k: int| 0 <= k < next.len() && (#[trigger] next[k]).1 == path@;
                    assert(done.take(j as int)[k].1 == path@);
                }
            }
            if same(toolchains[j].path.as_str(), path) {
                seen = true;
            }
            j = j + 1;
        }
        proof {
            assert(done.take(i as int) =~= done);
            assert(all.take(i + 1).drop_last() =~= done);
            assert(all.take(i + 1).last() == (
                toolchains@[i as int].name@,
                toolchains@[i as int].path@,
            ));
        }
        if !seen {
            let kernel = WebKernelSpecification {
                name: toolchains[i].name.clone(),
                python: Some(toolchains[i].path.clone()),
            };
            r.push(kernel);
            proof {
                assert(kernel_views(r@) =~= before.push(kernel.view()));
                assert(kernel_views(r@) =~= seq![sandbox_kernel()] + distinct_kernels(
                    all.take(i + 1),
                ));
            }
        }
        i = i + 1;
    }
    proof {
        assert(all.take(i as int) =~= all);
    }
    r
}

/// Why a message of a kernel was not accepted.
#[derive(Debug)]
pub enum KernelFault {
    /// It is too large, or the stream ended in it.
    TooLargeOrInterrupted,
    /// It is no JSON.
    NotJson(String),
    /// The host reports this error.
    Reported(String),
}

/// Why a message of a kernel was not accepted, on the level of specifications.
pub enum KernelFaultView {
    TooLargeOrInterrupted,
    NotJson(Seq<char>),
    Reported(Seq<char>),
}

impl KernelFault {
    pub open spec fn view(self) -> KernelFaultView {
        match self {
            KernelFault::TooLargeOrInterrupted => KernelFaultView::TooLargeOrInterrupted,
            KernelFault::NotJson(m) => KernelFaultView::NotJson(m@),
            KernelFault::Reported(m) => KernelFaultView::Reported(m@),
        }
    }

    /// A sentence for the user.
    pub fn message(&self) -> (r: String)
        ensures
            r@ == match *self {
                KernelFault::TooLargeOrInterrupted => {
                    "Kernel message exceeds the 8 MiB limit or was interrupted"@
                },
                KernelFault::NotJson(m) => m@,
                KernelFault::Reported(m) => m@,
            },
    {
        match self {
            KernelFault::TooLargeOrInterrupted => {
                "Kernel message exceeds the 8 MiB limit or was interrupted".to_owned()
            },
            KernelFault::NotJson(m) => m.clone(),
            KernelFault::Reported(m) => m.clone(),
        }
    }
}

/// A line that is within the limit and complete.
pub open spec fn whole_line(bytes: Seq<u8>) -> bool {
    bytes.len() <= MAX_MESSAGE && bytes.len() > 0 && bytes.last() == 10
}

/// What a line that was read from a kernel means: nothing at the end of the stream, else the
/// message, unless the line is not whole, is no JSON, or reports an error.
pub open spec fn line_meaning(
    bytes: Seq<u8>,
    value: Result<serde_json::Value, Seq<char>>,
) -> Result<Option<serde_json::Value>, KernelFaultView> {
    if bytes.len() == 0 {
        Ok(None)
    } else if !whole_line(bytes) {
        Err(KernelFaultView::TooLargeOrInterrupted)
    } else {
        match value {
            Err(m) => Err(KernelFaultView::NotJson(m)),
            Ok(v) => match member_text(json_members(v), "error"@) {
                Some(m) => Err(KernelFaultView::Reported(m)),
                None => Ok(Some(v)),
            },
        }
    }
}

/// The JSON value in a line, or why there is none, on the level of specifications.
pub open spec fn parsed_view(value: Result<serde_json::Value, String>) -> Result<
    serde_json::Value,
    Seq<char>,
> {
    match value {
        Ok(v) => Ok(v),
        Err(m) => Err(m@),
    }
}

/// What a line means, given the JSON value that it holds, or why it holds none.
pub fn interpret_line(bytes: &Vec<u8>, value: Result<serde_json::Value, String>) -> (r: Result<
    Option<serde_json::Value>,
    KernelFault,
>)
    ensures
        match r {
            Ok(v) => line_meaning(bytes@, parsed_view(value)) == Ok::<_, KernelFaultView>(v),
            Err(e) => line_meaning(bytes@, parsed_view(value)) == Err::<
                Option<serde_json::Value>,
                _,
            >(e.view()),
        },
{
    if bytes.len() == 0 {
        return Ok(None);
    }
    if bytes.len() > MAX_MESSAGE || bytes[bytes.len() - 1] != 10 {
        return Err(KernelFault::TooLargeOrInterrupted);
    }
    match value {
        Err(m) => Err(KernelFault::NotJson(m)),
        Ok(v) => match text_member(&v, "error") {
            Some(m) => Err(KernelFault::Reported(m)),
            None => Ok(Some(v)),
        },
    }
}

/// Reads a line that came from a kernel, which holds at most one byte more than the largest
/// message.
pub fn read_message(bytes: &Vec<u8>) -> (r: Result<Option<serde_json::Value>, KernelFault>)
    ensures
        match r {
            Ok(v) => line_meaning(bytes@, json_value(bytes@)) == Ok::<_, KernelFaultView>(v),
            Err(e) => line_meaning(bytes@, json_value(bytes@)) == Err::<
                Option<serde_json::Value>,
                _,
            >(e.view()),
        },
{
    interpret_line(bytes, parse_json(bytes.as_slice()))
}

/// A message as it is sent: its text, with a line feed behind it, unless it is too large.
pub fn frame_request(json: Vec<u8>) -> (r: Option<Vec<u8>>)
    ensures
        match r {
            Some(line) => framed(json@) == Some(line@),
            None => framed(json@) is None,
        },
{
    if json.len() >= MAX_MESSAGE {
        return None;
    }
    let mut line = json;
    line.push(10);
    Some(line)
}

/// How a kernel's start ended.
#[derive(Debug)]
pub enum StartupOutcome {
    /// Its first message.
    Message(serde_json::Value),
    Closed,
    TimedOut,
}

/// Whether a kernel has started, or why not.
pub fn check_startup(outcome: StartupOutcome) -> (r: Result<(), &'static str>)
    ensures
        match r {
            Ok(()) => startup_fault(outcome) is None,
            Err(m) => startup_fault(outcome) == Some(m@),
        },
{
    match outcome {
        StartupOutcome::Closed => Err("Python kernel closed before startup"),
        StartupOutcome::TimedOut => Err("Timed out starting the Python kernel"),
        StartupOutcome::Message(v) => {
            if true_member(&v, "ready") {
                Ok(())
            } else {
                Err("Invalid kernel startup response")
            }
        },
    }
}

/// What a request to a kernel is.
#[derive(Debug, Clone, Copy, PartialEq, Eq, Structural)]
pub enum RequestKind {
    InputReply,
    InterruptRequest,
    ShutdownRequest,
    DebugRequest,
    Other,
}

/// The channel on which a request goes.
#[derive(Debug, Clone, Copy, PartialEq, Eq, Structural)]
pub enum Channel {
    Stdin,
    Control,
    Shell,
}

/// The channel on which a request goes.
pub fn request_channel(kind: RequestKind) -> (r: Channel)
    ensures
        r == channel_for(kind),
{
    match kind {
        RequestKind::InputReply => Channel::Stdin,
        RequestKind::InterruptRequest
        | RequestKind::ShutdownRequest
        | RequestKind::DebugRequest => Channel::Control,
        RequestKind::Other => Channel::Shell,
    }
}

/// What a kernel is doing. `S` is the state that it reports.
pub struct WebRunningKernel<S, I, T> {
    pub directory: String,
    pub state: S,
    pub info: Option<I>,
    /// The task that moves messages.
    pub task: Option<T>,
    /// What keeps the connection open.
    pub connection: Option<T>,
}

impl<S, I, T> WebRunningKernel<S, I, T> {
    /// A kernel that has started; `starting` is the state that it reports first.
    pub fn new(directory: String, starting: S, task: T, connection: T) -> (r: Self)
        ensures
            r.directory == directory,
            r.state == starting,
            r.info is None,
            r.task == Some(task),
            r.connection == Some(connection),
    {
        WebRunningKernel {
            directory,
            state: starting,
            info: None,
            task: Some(task),
            connection: Some(connection),
        }
    }

    /// The directory in which the kernel runs.
    pub fn working_directory(&self) -> (r: &str)
        ensures
            r@ == self.directory@,
    {
        self.directory.as_str()
    }

    /// Notes what the kernel reports of itself.
    pub fn set_execution_state(&mut self, state: S)
        ensures
            *final(self) == (WebRunningKernel { state, ..*old(self) }),
    {
        self.state = state;
    }

    /// Notes what kind of kernel it is.
    pub fn set_kernel_info(&mut self, info: I)
        ensures
            *final(self) == (WebRunningKernel { info: Some(info), ..*old(self) }),
    {
        self.info = Some(info);
    }

    /// Ends the kernel: nothing moves messages any more, and nothing holds the connection.
    pub fn kill(&mut self)
        ensures
            *final(self) == (WebRunningKernel { task: None, connection: None, ..*old(self) }),
    {
        self.task = None;
        self.connection = None;
    }
}

/// The parts of a path: an empty one for the root at the beginning, if it begins there, and
/// then the names. A `.` is no name, except at the beginning.
pub open spec fn path_parts(path: Seq<char>) -> Seq<Seq<char>> {
    let pieces = split(path, '/');
    if begins(path, "/"@) {
        seq![Seq::<char>::empty()] + names_in(pieces)
    } else if pieces[0] == "."@ {
        seq!["."@] + names_in(pieces)
    } else {
        names_in(pieces)
    }
}

/// The parts of a path.
fn parts_of(path: &str) -> (r: Vec<String>)
    ensures
        texts(r@) == path_parts(path@),
{
    let pieces = split_on(path, '/');
    let names = names_of(path);
    let mut r: Vec<String> = Vec::new();
    if starts_with(path, "/") {
        r.push("".to_owned());
        proof {
            reveal_strlit("");
            assert(""@ =~= Seq::<char>::empty());
            assert(texts(r@) =~= seq![Seq::<char>::empty()]);
        }
    } else if pieces.len() > 0 && same(pieces[0].as_str(), ".") {
        proof {
            assert(texts(pieces@)[0] == pieces@[0]@);
        }
        r.push(".".to_owned());
        proof {
            assert(texts(r@) =~= seq!["."@]);
        }
    } else {
        proof {
            assert(split(path@, '/').len() > 0);
            assert(texts(pieces@)[0] == pieces@[0]@);
        }
    }
    let ghost first = texts(r@);
    let ghost rest = texts(names@);
    let mut i: usize = 0;
    while i < names.len()
        invariant
            i <= names@.len(),
            rest == texts(names@),
            texts(r@) == first + rest.take(i as int),
        decreases names@.len() - i,
    {
        let ghost before = texts(r@);
        r.push(names[i].clone());
        proof {
            assert(texts(r@) =~= before.push(rest[i as int]));
            assert(first + rest.take(i + 1) =~= before.push(rest[i as int]));
        }
        i = i + 1;
    }
    proof {
        assert(rest.take(i as int) =~= rest);
        assert(first + rest =~= path_parts(path@));
    }
    r
}

/// Whether two paths have the same parts, however many slashes are between them.
pub fn same_path(a: &str, b: &str) -> (r: bool)
    ensures
        r == (path_parts(a@) == path_parts(b@)),
{
    let x = parts_of(a);
    let y = parts_of(b);
    let ghost p = texts(x@);
    let ghost q = texts(y@);
    if x.len() != y.len() {
        proof {
            assert(p.len() != q.len());
        }
        return false;
    }
    let mut i: usize = 0;
    while i < x.len()
        invariant
            i <= x@.len(),
            x@.len() == y@.len(),
            p == texts(x@),
            q == texts(y@),
            p == path_parts(a@),
            q == path_parts(b@),
            forall|k: int| 0 <= k < i ==> p[k] == q[k],
        decreases x@.len() - i,
    {
        if !same(x[i].as_str(), y[i].as_str()) {
            proof {
                assert(p[i as int] != q[i as int]);
            }
            return false;
        }
        proof {
            assert(p[i as int] == q[i as int]);
        }
        i = i + 1;
    }
    proof {
        assert(p =~= q);
    }
    true
}

/// A kernel on this machine. Two are the same where the name is and the path leads through
/// the same parts. `K` is what it says of itself.
#[derive(Debug)]
pub struct LocalKernelSpecification<K> {
    pub name: String,
    pub path: String,
    pub kernelspec: K,
}

impl<K> PartialEq for LocalKernelSpecification<K> {
    fn eq(&self, other: &Self) -> (r: bool) {
        same(self.name.as_str(), other.name.as_str()) && same_path(
            self.path.as_str(),
            other.path.as_str(),
        )
    }
}

impl<K> vstd::std_specs::cmp::PartialEqSpecImpl for LocalKernelSpecification<K> {
    open spec fn obeys_eq_spec() -> bool {
        true
    }

    open spec fn eq_spec(&self, other: &Self) -> bool {
        self.name@ == other.name@ && path_parts(self.path@) == path_parts(other.path@)
    }
}

/// A kernel on another machine. Two are the same where name and address are.
#[derive(Debug)]
pub struct RemoteKernelSpecification<K> {
    pub name: String,
    pub url: String,
    pub token: String,
    pub kernelspec: K,
}

impl<K> PartialEq for RemoteKernelSpecification<K> {
    fn eq(&self, other: &Self) -> (r: bool) {
        same(self.name.as_str(), other.name.as_str()) && same(self.url.as_str(), other.url.as_str())
    }
}

impl<K> vstd::std_specs::cmp::PartialEqSpecImpl for RemoteKernelSpecification<K> {
    open spec fn obeys_eq_spec() -> bool {
        true
    }

    open spec fn eq_spec(&self, other: &Self) -> bool {
        self.name@ == other.name@ && self.url@ == other.url@
    }
}

/// The head of a message to a kernel.
#[derive(Debug)]
pub struct MessageHeader {
    pub msg_id: String,
    pub session: String,
    pub username: String,
    pub msg_type: String,
    pub version: String,
}

/// The head of a message: it belongs to the session of the message that it answers, or to a
/// new one. `msg_id` and `new_session` are new ids.
pub fn message_header(
    parent_session: Option<&str>,
    msg_id: String,
    new_session: String,
    msg_type: &str,
) -> (r: MessageHeader)
    ensures
        r.msg_id == msg_id,
        r.session@ == match parent_session {
            Some(s) => s@,
            None => new_session@,
        },
        r.username@ == "runtimelib"@,
        r.msg_type@ == msg_type@,
        r.version@ == "5.3"@,
{
    MessageHeader {
        msg_id,
        session: match parent_session {
            Some(s) => s.to_owned(),
            None => new_session,
        },
        username: "runtimelib".to_owned(),
        msg_type: msg_type.to_owned(),
        version: "5.3".to_owned(),
    }
}

/// What one end sends the other accepts: a message that is framed is a whole line.
pub proof fn law_framed_messages_are_whole(json: Seq<u8>)
    requires
        json.len() < MAX_MESSAGE,
    ensures
        whole_line(json.push(10)),
{
}

proof fn lemma_kernel_paths(v: Seq<(Seq<char>, Seq<char>)>, i: int)
    requires
        0 <= i < distinct_kernels(v).len(),
    ensures
        distinct_kernels(v)[i].python is Some,
        has_path(v, distinct_kernels(v)[i].python->0),
    decreases v.len(),
{
    let rest = distinct_kernels(v.drop_last());
    let k = distinct_kernels(v);
    if i < rest.len() {
        lemma_kernel_paths(v.drop_last(), i);
        assert(k[i] == rest[i]);
        let p = rest[i].python->0;
        let j = choose|j: int| 0 <= j < v.drop_last().len() && (#[trigger] v.drop_last()[j]).1 == p;
        assert(v[j].1 == p);
    } else {
        assert(v[v.len() - 1].1 == k[i].python->0);
    }
}

/// No two kernels of a project have the same interpreter.
pub proof fn law_kernels_are_distinct(v: Seq<(Seq<char>, Seq<char>)>, i: int, j: int)
    requires
        0 <= i < j < distinct_kernels(v).len(),
    ensures
        distinct_kernels(v)[i].python != distinct_kernels(v)[j].python,
    decreases v.len(),
{
    let rest = distinct_kernels(v.drop_last());
    let k = distinct_kernels(v);
    if j < rest.len() {
        law_kernels_are_distinct(v.drop_last(), i, j);
        assert(k[i] == rest[i] && k[j] == rest[j]);
    } else {
        assert(k[i] == rest[i]);
        lemma_kernel_paths(v.drop_last(), i);
    }
}

/// No toolchain is left out: there is a kernel for its interpreter, with the name of the first
/// toolchain that has it.
pub proof fn law_every_interpreter_has_a_kernel(v: Seq<(Seq<char>, Seq<char>)>, k: int) -> (i: int)
    requires
        0 <= k < v.len(),
        forall|j: int| 0 <= j < k ==> (#[trigger] v[j]).1 != v[k].1,
    ensures
        0 <= i < distinct_kernels(v).len(),
        distinct_kernels(v)[i] == (WebKernelView { name: v[k].0, python: Some(v[k].1) }),
    decreases v.len(),
{
    let front = v.drop_last();
    if k < front.len() {
        assert forall|j: int| 0 <= j < k implies (#[trigger] front[j]).1 != front[k].1 by {
            assert(v[j].1 != v[k].1);
        }
        let i = law_every_interpreter_has_a_kernel(front, k);
        i
    } else {
        assert(!has_path(front, v.last().1)) by {
            if has_path(front, v.last().1) {
                let j = choose|j: int| 0 <= j < front.len() && (#[trigger] front[j]).1
                    == v.last().1;
                assert(v[j].1 != v[k].1);
            }
        }
        distinct_kernels(front).len() as int
    }
}

/// There is no kernel but those of toolchains and the one that comes with the host, which is
/// the first.
pub proof fn law_kernels_are_those_of_toolchains(v: Seq<(Seq<char>, Seq<char>)>, i: int) -> (k: int)
    requires
        0 <= i < distinct_kernels(v).len(),
    ensures
        0 <= k < v.len(),
        distinct_kernels(v)[i] == (WebKernelView { name: v[k].0, python: Some(v[k].1) }),
        sandbox_kernel().python is None,
    decreases v.len(),
{
    let rest = distinct_kernels(v.drop_last());
    if i < rest.len() {
        let k = law_kernels_are_those_of_toolchains(v.drop_last(), i);
        assert(v[k] == v.drop_last()[k]);
        k
    } else {
        v.len() - 1
    }
}

/// A line of at most 8 MiB that ends in a line feed and is JSON is a message, unless it reports
/// an error; the end of the stream is none, and every other line is a fault.
pub proof fn law_lines_are_messages(
    bytes: Seq<u8>,
    value: serde_json::Value,
    text: Seq<char>,
    any: Result<serde_json::Value, Seq<char>>,
)
    ensures
        line_meaning(Seq::empty(), any) == Ok::<Option<serde_json::Value>, KernelFaultView>(None),
        bytes.len() > 0 && (bytes.len() > 8_388_608 || bytes.last() != 10) ==> line_meaning(
            bytes,
            any,
        ) == Err::<Option<serde_json::Value>, KernelFaultView>(
            KernelFaultView::TooLargeOrInterrupted,
        ),
        0 < bytes.len() <= 8_388_608 && bytes.last() == 10 ==> {
            &&& line_meaning(bytes, Err(text)) == Err::<Option<serde_json::Value>, KernelFaultView>(
                KernelFaultView::NotJson(text),
            )
            &&& member_text(json_members(value), "error"@) is None ==> line_meaning(
                bytes,
                Ok(value),
            ) == Ok::<Option<serde_json::Value>, KernelFaultView>(Some(value))
            &&& member_text(json_members(value), "error"@) is Some ==> line_meaning(
                bytes,
                Ok(value),
            ) == Err::<Option<serde_json::Value>, KernelFaultView>(
                KernelFaultView::Reported(member_text(json_members(value), "error"@)->0),
            )
        },
{
}

/// A slash at the end of a path, or a second one between two names, makes no other path of it.
pub proof fn law_slashes_do_not_count(a: Seq<char>, b: Seq<char>)
    requires
        a.len() > 0,
    ensures
        path_parts(a.push('/') + b) == path_parts(a.push('/').push('/') + b),
        path_parts(a.push('/')) == path_parts(a),
{
    let e = Seq::<char>::empty();
    lemma_split_concat(a, b, '/');
    lemma_split_concat(a.push('/'), b, '/');
    lemma_split_concat(a, e, '/');
    assert(a.push('/') + e =~= a.push('/'));
    lemma_position(e, '/');
    assert(split(e, '/') =~= seq![e]);
    lemma_split_pieces(a, '/');
    let pieces = split(a, '/');
    let rest = split(b, '/');
    reveal_strlit("/");
    assert(begins(a.push('/') + b, "/"@) == begins(a, "/"@)) by {
        assert((a.push('/') + b).take(1)[0] == a[0]);
        assert(a.take(1)[0] == a[0]);
        assert("/"@ =~= seq!['/']);
        assert((a.push('/') + b).take(1) =~= seq![a[0]]);
        assert(a.take(1) =~= seq![a[0]]);
    }
    assert(begins(a.push('/').push('/') + b, "/"@) == begins(a, "/"@)) by {
        assert((a.push('/').push('/') + b).take(1) =~= seq![a[0]]);
        assert(a.take(1) =~= seq![a[0]]);
    }
    assert(begins(a.push('/'), "/"@) == begins(a, "/"@)) by {
        assert(a.push('/').take(1) =~= seq![a[0]]);
        assert(a.take(1) =~= seq![a[0]]);
    }
    law_only_names_lead_on(pieces, e, rest);
    law_only_names_lead_on(pieces, e, Seq::empty());
    assert(pieces + seq![e] + Seq::<Seq<char>>::empty() =~= pieces + seq![e]);
    assert(pieces + Seq::<Seq<char>>::empty() =~= pieces);
}

/// A message as it is sent, unless it is too large.
pub open spec fn framed(json: Seq<u8>) -> Option<Seq<u8>> {
    if json.len() < MAX_MESSAGE {
        Some(json.push(10))
    } else {
        None
    }
}

/// A message is sent whole, with a line feed behind it, unless it would be over 8 MiB with it;
/// what is sent is a line that the other end accepts.
pub proof fn law_messages_are_sent_as_lines(json: Seq<u8>)
    ensures
        json.len() < 8_388_608 ==> framed(json) == Some(json.push(10)) && whole_line(json.push(10)),
        json.len() >= 8_388_608 ==> framed(json) is None,
{
}

/// Why a kernel has not started.
pub open spec fn startup_fault(outcome: StartupOutcome) -> Option<Seq<char>> {
    match outcome {
        StartupOutcome::Closed => Some("Python kernel closed before startup"@),
        StartupOutcome::TimedOut => Some("Timed out starting the Python kernel"@),
        StartupOutcome::Message(v) => if member_true(json_members(v), "ready"@) {
            None
        } else {
            Some("Invalid kernel startup response"@)
        },
    }
}

/// A kernel has started exactly where its first message says that it is ready.
pub proof fn law_kernels_say_when_they_are_ready(outcome: StartupOutcome)
    ensures
        startup_fault(outcome) is None <==> (outcome matches StartupOutcome::Message(v)
            && json_members(v).dom().contains("ready"@) && json_members(v)["ready"@]
            == MemberView::Truth(true)),
{
}

/// The channel that a request goes over.
pub open spec fn channel_for(kind: RequestKind) -> Channel {
    match kind {
        RequestKind::InputReply => Channel::Stdin,
        RequestKind::InterruptRequest
        | RequestKind::ShutdownRequest
        | RequestKind::DebugRequest => Channel::Control,
        RequestKind::Other => Channel::Shell,
    }
}

/// What is typed for a program goes to it, what has to get through while something runs goes
/// over the channel for that, and everything else waits its turn.
pub proof fn law_requests_take_their_channel(kind: RequestKind)
    ensures
        channel_for(kind) == Channel::Stdin <==> kind is InputReply,
        channel_for(kind) == Channel::Control <==> kind is InterruptRequest
            || kind is ShutdownRequest || kind is DebugRequest,
        channel_for(kind) == Channel::Shell <==> kind is Other,
{
}

/// A path from the root is another than the same path from elsewhere, and so is one that
/// begins at the directory itself; a single dot further on makes no difference.
pub proof fn law_paths_begin_somewhere(a: Seq<char>, b: Seq<char>)
    requires
        a.len() > 0,
    ensures
        path_parts(seq!['/'] + b) == seq![Seq::<char>::empty()] + names_in(split(b, '/')),
        path_parts(seq!['.', '/'] + b) == seq!["."@] + names_in(split(b, '/')),
        path_parts(a.push('/') + (seq!['.', '/'] + b)) == path_parts(a.push('/') + b),
        path_parts(Seq::empty()).len() == 0,
{
    let e = Seq::<char>::empty();
    let dot = seq!['.'];
    reveal_strlit(".");
    reveal_strlit("/");
    assert("."@ =~= dot);
    assert("/"@ =~= seq!['/']);
    lemma_position(e, '/');
    assert(split(e, '/') =~= seq![e]);
    lemma_position(dot, '/');
    assert(split(dot, '/') =~= seq![dot]);
    lemma_split_concat(e, b, '/');
    assert(e.push('/') + b =~= seq!['/'] + b);
    lemma_split_concat(dot, b, '/');
    assert(dot.push('/') + b =~= seq!['.', '/'] + b);
    let rest = split(b, '/');
    law_only_names_lead_on(Seq::empty(), e, rest);
    law_only_names_lead_on(Seq::empty(), dot, rest);
    assert(Seq::<Seq<char>>::empty() + seq![e] + rest =~= seq![e] + rest);
    assert(Seq::<Seq<char>>::empty() + seq![dot] + rest =~= seq![dot] + rest);
    assert(Seq::<Seq<char>>::empty() + rest =~= rest);
    assert((seq!['/'] + b).take(1) =~= seq!['/']);
    assert((seq!['.', '/'] + b).take(1) =~= dot);
    assert('.' != '/');
    assert(dot[0] != seq!['/'][0]);
    let pieces = split(a, '/');
    lemma_split_pieces(a, '/');
    lemma_split_concat(a, seq!['.', '/'] + b, '/');
    lemma_split_concat(a, b, '/');
    law_only_names_lead_on(pieces, dot, rest);
    assert(pieces + (seq![dot] + rest) =~= pieces + seq![dot] + rest);
    assert((a.push('/') + b).take(1) =~= seq![a[0]]);
    assert((a.push('/') + (seq!['.', '/'] + b)).take(1) =~= seq![a[0]]);
    reveal_with_fuel(names_in, 2);
    assert(seq![e].drop_last() =~= Seq::<Seq<char>>::empty());
}

} // verus!
