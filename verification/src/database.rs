//! The database of a client: which images are accepted, how writes take turns, and the
//! checks around the SQL engine.

use vstd::prelude::*;
use vstd::string::*;

use crate::text::{
    begins, byte_len, bytes_in, chars_of, concat2, concat3, cut_text, decimal, decimal_digits,
    has_text, holds_text, is_white_space, law_cut_at_the_first_text, lemma_text_position, same,
    signed_decimal, signed_digits, split_once_text, starts_with, string_of, text_position, trim,
    trimmed, white_space,
};

verus! {

/// The largest image of a database, in bytes.
pub const MAX_IMAGE_BYTES: usize = 12_582_912;

/// The length of the header of an image.
pub const HEADER_LEN: usize = 100;

/// How many steps an unknown image may cost.
pub const SCRATCH_STEP_BUDGET: u64 = 200_000_000;

/// After how many steps the engine asks whether to go on.
pub const PROGRESS_STRIDE: u64 = 10_000;

/// How often a migration is tried.
pub const MIGRATION_RETRIES: usize = 10;

/// How often the setup of a connection is tried.
pub const CONNECTION_INITIALIZE_RETRIES: usize = 50;

/// The bytes that an image begins with.
pub open spec fn image_magic() -> Seq<u8> {
    seq![83u8, 81, 76, 105, 116, 101, 32, 102, 111, 114, 109, 97, 116, 32, 51, 0]
}

/// Why an image is refused before the engine sees it.
#[derive(Debug, Clone, Copy, PartialEq, Eq, Structural)]
pub enum ImageFault {
    TooLarge,
    TooShort,
    /// It does not begin like a database.
    NoHeader,
}

/// Why an image is refused before the engine sees it.
pub open spec fn image_fault(image: Seq<u8>) -> Option<ImageFault> {
    if image.len() > MAX_IMAGE_BYTES {
        Some(ImageFault::TooLarge)
    } else if image.len() < HEADER_LEN {
        Some(ImageFault::TooShort)
    } else if image.take(16) != image_magic() {
        Some(ImageFault::NoHeader)
    } else {
        None
    }
}

/// The bytes that an image begins with.
fn magic_bytes() -> (r: Vec<u8>)
    ensures
        r@ == image_magic(),
{
    let r: Vec<u8> = vec![83, 81, 76, 105, 116, 101, 32, 102, 111, 114, 109, 97, 116, 32, 51, 0];
    proof {
        assert(r@ =~= image_magic());
    }
    r
}

/// Checks the size and the beginning of an image.
pub fn check_image(image: &[u8]) -> (r: Result<(), ImageFault>)
    ensures
        match r {
            Ok(()) => image_fault(image@) is None,
            Err(fault) => image_fault(image@) == Some(fault),
        },
{
    if image.len() > MAX_IMAGE_BYTES {
        return Err(ImageFault::TooLarge);
    }
    if image.len() < HEADER_LEN {
        return Err(ImageFault::TooShort);
    }
    let magic = magic_bytes();
    let mut i: usize = 0;
    while i < 16
        invariant
            i <= 16,
            magic@ == image_magic(),
            HEADER_LEN <= image@.len() <= MAX_IMAGE_BYTES,
            forall|j: int| 0 <= j < i ==> image@[j] == magic@[j],
        decreases 16 - i,
    {
        if image[i] != magic[i] {
            proof {
                assert(image@.take(16)[i as int] != image_magic()[i as int]);
            }
            return Err(ImageFault::NoHeader);
        }
        i = i + 1;
    }
    proof {
        assert(image@.take(16) =~= image_magic());
    }
    Ok(())
}

impl ImageFault {
    /// A sentence for the log.
    pub fn message(&self, len: usize) -> (r: String)
        ensures
            r@ == match *self {
                ImageFault::TooLarge => "database image is "@ + decimal_digits(len as nat)
                    + " bytes, over the 12582912 byte limit"@,
                ImageFault::TooShort => "database image is too short ("@ + decimal_digits(
                    len as nat,
                ) + " bytes)"@,
                ImageFault::NoHeader => "database image does not start with the SQLite header"@,
            },
    {
        let digits = decimal(len as u64);
        match self {
            ImageFault::TooLarge => concat3(
                "database image is ",
                digits.as_str(),
                " bytes, over the 12582912 byte limit",
            ),
            ImageFault::TooShort => concat3(
                "database image is too short (",
                digits.as_str(),
                " bytes)",
            ),
            ImageFault::NoHeader => {
                "database image does not start with the SQLite header".to_owned()
            },
        }
    }
}

/// An image as it is opened: the bytes that say how it was written are set to the one way
/// that can be opened from memory.
pub fn prepare_image(image: Vec<u8>) -> (r: Result<Vec<u8>, ImageFault>)
    ensures
        match r {
            Ok(copy) => image_fault(image@) is None && copy@ == image@.update(18, 1u8).update(
                19,
                1u8,
            ),
            Err(fault) => image_fault(image@) == Some(fault),
        },
{
    match check_image(image.as_slice()) {
        Ok(()) => {},
        Err(fault) => {
            return Err(fault);
        },
    }
    let mut copy = image;
    copy.set(18, 1);
    copy.set(19, 1);
    Ok(copy)
}

/// What the engine found in an image.
#[derive(Debug)]
pub struct ImageFindings {
    /// Reading the schema: the error, if there was one.
    pub schema: Result<(), String>,
    /// The word that the check of the pages gave.
    pub quick_check: Result<Option<String>, String>,
    /// How many parts of the schema are neither tables nor indexes.
    pub foreign_objects: Option<i64>,
}

/// The verdict on an image: its schema can be read, its pages are in order, and there is
/// nothing in it but tables and indexes.
pub open spec fn findings_ok(f: ImageFindings) -> bool {
    &&& f.schema is Ok
    &&& f.quick_check matches Ok(Some(word))
    &&& word@ == "ok"@
    &&& f.foreign_objects is None || f.foreign_objects->0 == 0
}

/// Judges an image by what the engine found in it.
pub fn judge_image(f: ImageFindings) -> (r: Result<(), String>)
    ensures
        r is Ok <==> findings_ok(f),
        match r {
            Ok(()) => true,
            Err(m) => match f.schema {
                Err(error) => m@ == "database image is unreadable: "@ + error@,
                Ok(()) => match f.quick_check {
                    Err(error) => m@ == "database image could not be checked: "@ + error@,
                    Ok(None) => m@ == "database image failed quick_check: "@,
                    Ok(Some(word)) => if word@ != "ok"@ {
                        m@ == "database image failed quick_check: "@ + word@
                    } else {
                        m@ == "database image carries "@ + signed_digits(
                            f.foreign_objects->0 as int,
                        ) + " schema object(s) other than tables and indexes"@
                    },
                },
            },
        },
{
    if let Err(error) = f.schema {
        return Err(concat2("database image is unreadable: ", error.as_str()));
    }
    match f.quick_check {
        Err(error) => {
            return Err(concat2("database image could not be checked: ", error.as_str()));
        },
        Ok(None) => {
            return Err("database image failed quick_check: ".to_owned());
        },
        Ok(Some(word)) => {
            if !same(word.as_str(), "ok") {
                return Err(concat2("database image failed quick_check: ", word.as_str()));
            }
        },
    }
    let foreign: i64 = match f.foreign_objects {
        Some(n) => n,
        None => 0,
    };
    if foreign != 0 {
        let digits = signed_decimal(foreign);
        return Err(
            concat3(
                "database image carries ",
                digits.as_str(),
                " schema object(s) other than tables and indexes",
            ),
        );
    }
    Ok(())
}

/// What the engine did when it was asked for an image.
#[derive(Debug)]
pub enum SerializeOutcome {
    /// It gave one.
    Image(Vec<u8>),
    /// It gave none, and says that it would have this many bytes.
    Nothing { size: i64 },
}

/// The image of a database; an empty one where the database has no pages, unless the engine
/// reports an error. `None` where there was no memory for it.
pub fn serialize_main(outcome: SerializeOutcome, error: Option<String>) -> (r: Result<
    Vec<u8>,
    Option<String>,
>)
    ensures
        match outcome {
            SerializeOutcome::Image(image) => r == Ok::<_, Option<String>>(image),
            SerializeOutcome::Nothing { size } => if size > 0 {
                r == Err::<Vec<u8>, Option<String>>(None)
            } else {
                match error {
                    Some(m) => r == Err::<Vec<u8>, Option<String>>(Some(m)),
                    None => r matches Ok(image) && image@.len() == 0,
                }
            },
        },
{
    match outcome {
        SerializeOutcome::Image(image) => Ok(image),
        SerializeOutcome::Nothing { size } => {
            if size > 0 {
                return Err(None);
            }
            match error {
                Some(m) => Err(Some(m)),
                None => Ok(Vec::new()),
            }
        },
    }
}

/// The stages of copying one database into another, by the codes of the engine.
#[derive(Debug, Clone, Copy)]
pub struct BackupCodes {
    /// Whether it could begin.
    pub begun: bool,
    pub step: i32,
    pub finish: i32,
}

/// Why one database could not be copied into another.
#[derive(Debug, Clone, Copy, PartialEq, Eq, Structural)]
pub enum BackupFault {
    NotBegun,
    /// The copying ended with this code.
    Step(i32),
    /// The end of it had this code.
    Finish(i32),
}

/// Whether one database was copied into another, whole.
pub fn restore_main_from(codes: BackupCodes) -> (r: Result<(), BackupFault>)
    ensures
        r == copied(codes),
{
    if !codes.begun {
        return Err(BackupFault::NotBegun);
    }
    if codes.step != 101 {
        return Err(BackupFault::Step(codes.step));
    }
    if codes.finish != 0 {
        return Err(BackupFault::Finish(codes.finish));
    }
    Ok(())
}

/// How much a connection may still cost.
#[derive(Debug)]
pub struct StepBudget {
    /// How often the engine may still ask.
    pub remaining: u64,
}

impl StepBudget {
    /// A budget of at least this many steps.
    pub fn limit_steps(steps: u64) -> (r: StepBudget)
        ensures
            r.remaining == (steps + PROGRESS_STRIDE - 1) / PROGRESS_STRIDE as int,
            r.remaining * PROGRESS_STRIDE >= steps,
            r.remaining * PROGRESS_STRIDE < steps + PROGRESS_STRIDE,
    {
        let whole: u64 = steps / PROGRESS_STRIDE;
        let remaining: u64 = if steps % PROGRESS_STRIDE > 0 {
            whole + 1
        } else {
            whole
        };
        StepBudget { remaining }
    }

    /// The engine asks whether to go on; true tells it to stop.
    pub fn tick(&mut self) -> (r: bool)
        ensures
            r == (old(self).remaining == 0),
            final(self).remaining == after_ticks(old(self).remaining as nat, 1),
    {
        if self.remaining == 0 {
            return true;
        }
        self.remaining = self.remaining - 1;
        false
    }
}

/// What is left of a budget after the engine asked this often.
pub open spec fn after_ticks(remaining: nat, n: nat) -> nat {
    if n >= remaining {
        0
    } else {
        (remaining - n) as nat
    }
}

/// A statement that never ends is stopped: once the budget is spent, every further question
/// is answered with a stop.
pub proof fn law_runaway_statements_are_stopped(remaining: nat, n: nat)
    ensures
        n >= remaining ==> after_ticks(remaining, n) == 0,
        after_ticks(remaining, n + 1) == after_ticks(after_ticks(remaining, n), 1),
{
}

/// The text that `str::to_lowercase` makes of a text.
pub uninterp spec fn lower_case(s: Seq<char>) -> Seq<char>;

/// Calls `str::to_lowercase`. The result is a function of the text.
#[verifier::external_body]
fn to_lower_case(s: &str) -> (r: String)
    ensures
        r@ == lower_case(s@),
{
    s.to_lowercase()
}

/// The characters from the first that is not white space on.
pub open spec fn skip_blank(s: Seq<char>) -> Seq<char>
    decreases s.len(),
{
    if s.len() > 0 && white_space(s[0]) {
        skip_blank(s.skip(1))
    } else {
        s
    }
}

/// The characters before the first white space.
pub open spec fn take_word(s: Seq<char>) -> Seq<char>
    decreases s.len(),
{
    if s.len() > 0 && !white_space(s[0]) {
        seq![s[0]] + take_word(s.skip(1))
    } else {
        Seq::empty()
    }
}

/// How many characters are left out before the word behind a keyword: as many as there are
/// bytes before the keyword and characters in it.
pub open spec fn skipped(s: Seq<char>, keyword: Seq<char>) -> int {
    let n = byte_len(s.take(text_position(s, keyword))) + keyword.len();
    if n <= s.len() {
        n as int
    } else {
        s.len() as int
    }
}

/// The word behind the first place of a keyword.
pub open spec fn word_after(s: Seq<char>, keyword: Seq<char>) -> Option<Seq<char>> {
    if cut_text(s, keyword) is Some {
        Some(take_word(skip_blank(s.skip(skipped(s, keyword)))))
    } else {
        None
    }
}

/// The word behind the first place of a keyword.
fn find_word_after(s: &str, keyword: &str) -> (r: Option<String>)
    requires
        keyword@.len() > 0,
    ensures
        match r {
            Some(w) => word_after(s@, keyword@) == Some(w@),
            None => word_after(s@, keyword@) is None,
        },
{
    let before = match split_once_text(s, keyword) {
        Some((before, _)) => before,
        None => {
            return None;
        },
    };
    let v = chars_of(s);
    let k = chars_of(keyword);
    proof {
        assert(before@ == s@.take(text_position(s@, keyword@)));
    }
    let lead: usize = bytes_in(before.as_str());
    let mut at: usize = v.len();
    if lead <= v.len() && k.len() <= v.len() - lead {
        at = lead + k.len();
    }
    let ghost rest = s@.skip(at as int);
    while at < v.len() && is_white_space(v[at])
        invariant
            at <= v@.len(),
            v@ == s@,
            skip_blank(s@.skip(at as int)) == skip_blank(rest),
        decreases v@.len() - at,
    {
        proof {
            assert(s@.skip(at as int).skip(1) =~= s@.skip(at + 1));
        }
        at = at + 1;
    }
    let start = at;
    proof {
        assert(skip_blank(rest) == s@.skip(start as int));
        assert(s@.subrange(start as int, start as int) + take_word(s@.skip(start as int))
            =~= take_word(s@.skip(start as int)));
    }
    while at < v.len() && !is_white_space(v[at])
        invariant
            start <= at <= v@.len(),
            v@ == s@,
            s@.subrange(start as int, at as int) + take_word(s@.skip(at as int)) == take_word(
                s@.skip(start as int),
            ),
        decreases v@.len() - at,
    {
        proof {
            let tail = s@.skip(at as int);
            assert(tail.skip(1) =~= s@.skip(at + 1));
            assert(s@.subrange(start as int, at + 1) + take_word(s@.skip(at + 1)) =~= s@.subrange(
                start as int,
                at as int,
            ) + take_word(tail));
        }
        at = at + 1;
    }
    let word = string_of(&v, start, at);
    proof {
        assert(take_word(s@.skip(at as int)) =~= Seq::<char>::empty());
        assert(word@ =~= take_word(s@.skip(start as int)));
    }
    Some(word)
}

/// The table that a statement alters, and a column that it takes to be there.
pub open spec fn altered_table(lower: Seq<char>) -> Option<(Seq<char>, Seq<char>)> {
    if !begins(lower, "alter"@) {
        None
    } else {
        match word_after(lower, "table"@) {
            None => None,
            Some(table) => if table.len() == 0 {
                None
            } else {
                Some(
                    (
                        table,
                        match word_after(lower, "rename column"@) {
                            Some(c) => c,
                            None => match word_after(lower, "drop column"@) {
                                Some(c) => c,
                                None => "__place_holder_column_for_syntax_checking"@,
                            },
                        },
                    ),
                )
            },
        }
    }
}

/// The table that a statement in small letters alters, and a column that it takes to be
/// there.
pub fn parse_lowered_alter_table(lower: &str) -> (r: Option<(String, String)>)
    ensures
        match r {
            Some((table, column)) => altered_table(lower@) == Some((table@, column@)),
            None => altered_table(lower@) is None,
        },
{
    proof {
        reveal_strlit("table");
        reveal_strlit("rename column");
        reveal_strlit("drop column");
    }
    if !starts_with(lower, "alter") {
        return None;
    }
    let table = match find_word_after(lower, "table") {
        Some(table) => table,
        None => {
            return None;
        },
    };
    if table.as_str().is_empty() {
        return None;
    }
    let column = match find_word_after(lower, "rename column") {
        Some(column) => column,
        None => match find_word_after(lower, "drop column") {
            Some(column) => column,
            None => "__place_holder_column_for_syntax_checking".to_owned(),
        },
    };
    Some((table, column))
}

/// The table that a statement alters, and a column that it takes to be there. The engine
/// looks for both before it looks at the rest of the statement.
pub fn parse_alter_table(sql: &str) -> (r: Option<(String, String)>)
    ensures
        match r {
            Some((table, column)) => altered_table(lower_case(sql@)) == Some((table@, column@)),
            None => altered_table(lower_case(sql@)) is None,
        },
{
    let lower = to_lower_case(sql);
    parse_lowered_alter_table(lower.as_str())
}

/// A text of statements whose syntax is checked one statement at a time.
pub struct SyntaxScan {
    /// What is left to check.
    pub rest: String,
    /// How many bytes were checked.
    pub done: usize,
}

/// What is checked next.
#[derive(Debug)]
pub enum ScanStep {
    /// Nothing is left.
    Done,
    /// The first statement of the rest, as it is.
    Prepare,
    /// The same, in an empty database with this table and this column.
    PrepareWithTable { table: String, column: String },
}

/// Whether anything is left to check.
pub open spec fn any_statement(rest: Seq<char>) -> bool {
    trimmed(rest).len() > 0 && trimmed(rest) != ";"@
}

impl SyntaxScan {
    /// Nothing was checked yet.
    pub fn new(sql: &str) -> (r: SyntaxScan)
        ensures
            r.rest@ == sql@,
            r.done == 0,
    {
        SyntaxScan { rest: sql.to_owned(), done: 0 }
    }

    /// What is checked next.
    pub fn next(&self) -> (r: ScanStep)
        ensures
            match r {
                ScanStep::Done => !any_statement(self.rest@),
                ScanStep::Prepare => any_statement(self.rest@) && altered_table(
                    lower_case(trimmed(self.rest@)),
                ) is None,
                ScanStep::PrepareWithTable { table, column } => any_statement(self.rest@)
                    && altered_table(lower_case(trimmed(self.rest@))) == Some((table@, column@)),
            },
    {
        let rest = trim(self.rest.as_str());
        if rest.as_str().is_empty() || same(rest.as_str(), ";") {
            return ScanStep::Done;
        }
        match parse_alter_table(rest.as_str()) {
            Some((table, column)) => ScanStep::PrepareWithTable { table, column },
            None => ScanStep::Prepare,
        }
    }

    /// What the engine's word on a statement leads to.
    pub open spec fn scanned(
        self,
        code: i32,
        offset: i32,
        message: String,
        left: String,
        found: Option<(String, usize)>,
        after: SyntaxScan,
    ) -> bool {
        if code == 1 && offset >= 0 {
            &&& found == Some((message, (self.done + offset) as usize))
            &&& after == self
        } else {
            &&& found is None
            &&& after.rest == left
            &&& after.done + byte_len(left@) == self.done + byte_len(self.rest@)
        }
    }

    /// Takes in what the engine said of a statement: its code, the place of an error in the
    /// rest, a message, and what it left of the rest. Returns the message and the place in
    /// the whole text, where the statement has a syntax error.
    pub fn prepared(&mut self, code: i32, offset: i32, message: String, left: String) -> (r: Option<
        (String, usize),
    >)
        requires
            byte_len(left@) <= byte_len(old(self).rest@),
            old(self).done + byte_len(old(self).rest@) <= usize::MAX,
            offset <= byte_len(old(self).rest@),
        ensures
            old(self).scanned(code, offset, message, left, r, *final(self)),
    {
        if code == 1 && offset >= 0 {
            return Some((message, self.done + offset as usize));
        }
        let before: usize = bytes_in(self.rest.as_str());
        let after: usize = bytes_in(left.as_str());
        self.done = self.done + (before - after);
        self.rest = left;
        None
    }
}

/// The name under which a database in memory is shared.
pub fn shared_memory_uri(uri: &str) -> (r: String)
    ensures
        r@ == "file:"@ + uri@ + "?mode=memory&cache=shared"@,
{
    concat3("file:", uri, "?mode=memory&cache=shared")
}

/// A code that is no error.
pub fn is_success(code: i32) -> (r: bool)
    ensures
        r == (code == 0 || code == 100),
{
    code == 0 || code == 100
}

/// Whether a connection may write right now.
#[derive(Debug)]
pub struct WriteFlag {
    pub writable: bool,
}

impl WriteFlag {
    /// Whether the connection may write.
    pub fn can_write(&self) -> (r: bool)
        ensures
            r == self.writable,
    {
        self.writable
    }

    /// Lets the connection write while something is done, and then as before: what is done
    /// may be part of another write, which goes on afterwards. `callback` is told whether the
    /// connection may write.
    pub fn with_write<T, F: FnOnce(bool) -> T>(&mut self, callback: F) -> (r: T)
        requires
            callback.requires((true,)),
        ensures
            callback.ensures((true,), r),
            *final(self) == *old(self),
    {
        let was_writable = self.writable;
        self.writable = true;
        let result = callback(self.writable);
        self.writable = was_writable;
        result
    }
}

/// What became of the image that a database was to be restored from.
#[derive(Debug)]
pub enum RestoreOutcome {
    NoImage,
    Restored,
    /// It could not be used, for this reason; the database is empty.
    Skipped(String),
}

/// What became of an image. `attempt` is what restoring it gave, if there was one.
pub fn restore_outcome(attempt: Option<Result<(), String>>) -> (r: RestoreOutcome)
    ensures
        r == match attempt {
            None => RestoreOutcome::NoImage,
            Some(Ok(())) => RestoreOutcome::Restored,
            Some(Err(reason)) => RestoreOutcome::Skipped(reason),
        },
{
    match attempt {
        None => RestoreOutcome::NoImage,
        Some(Ok(())) => RestoreOutcome::Restored,
        Some(Err(reason)) => RestoreOutcome::Skipped(reason),
    }
}

/// The stages of restoring an image, each of which may fail.
#[derive(Debug)]
pub struct RestoreStages {
    /// Opening it apart from the database.
    pub opened: Result<(), String>,
    /// Migrating it there.
    pub migrated: Result<(), String>,
    /// Copying it into the database.
    pub copied: Result<(), String>,
}

/// What restoring an image gave: the first stage that failed, or success.
pub fn restore_image_into(stages: RestoreStages) -> (r: Result<(), String>)
    ensures
        stages.opened is Err ==> r == stages.opened,
        match r {
            Ok(()) => restore_fault(stages) is None,
            Err(m) => restore_fault(stages) == Some(m@),
        },
{
    if let Err(m) = stages.opened {
        return Err(m);
    }
    if let Err(m) = stages.migrated {
        return Err(concat2("migrating the restored image: ", m.as_str()));
    }
    if let Err(m) = stages.copied {
        return Err(concat2("copying the restored image into the database: ", m.as_str()));
    }
    Ok(())
}

/// Whether foreign keys are enforced, by what the engine says: not where it says nothing.
pub fn foreign_keys_enabled(reading: Option<i32>) -> (r: bool)
    ensures
        r == (reading is Some && reading->0 != 0),
{
    match reading {
        Some(enabled) => enabled != 0,
        None => false,
    }
}

/// A migration that is tried several times.
#[derive(Debug)]
pub struct MigrationRun {
    pub attempts: usize,
    pub succeeded: bool,
}

impl MigrationRun {
    /// Not tried yet.
    pub fn new() -> (r: MigrationRun)
        ensures
            r.attempts == 0,
            !r.succeeded,
    {
        MigrationRun { attempts: 0, succeeded: false }
    }

    /// Whether to try: not after a success, and not too often.
    pub fn again(&self) -> (r: bool)
        ensures
            r == (!self.succeeded && self.attempts < MIGRATION_RETRIES),
    {
        !self.succeeded && self.attempts < MIGRATION_RETRIES
    }

    /// Takes in how a try ended.
    pub fn tried(&mut self, ok: bool)
        requires
            !old(self).succeeded,
            old(self).attempts < MIGRATION_RETRIES,
        ensures
            final(self).attempts == old(self).attempts + 1,
            final(self).succeeded == ok,
    {
        self.attempts = self.attempts + 1;
        self.succeeded = ok;
    }
}

/// An error that goes away when another connection is done.
pub open spec fn lock_error(message: Seq<char>) -> bool {
    holds_text(message, "database schema is locked"@) || holds_text(message, "database is locked"@)
}

/// Whether an error goes away when another connection is done.
pub fn is_schema_lock_error(message: &str) -> (r: bool)
    ensures
        r == lock_error(message@),
{
    has_text(message, "database schema is locked") || has_text(message, "database is locked")
}

/// What is done after a try to set a connection up.
#[derive(Debug, Clone, Copy, PartialEq, Eq, Structural)]
pub enum InitStep {
    Done,
    /// Wait a little, and try again.
    Retry,
    /// Give up.
    Fail,
}

/// What is done after a try to set a connection up. `attempt` counts from zero. Only a lock
/// is worth another try, and only so often.
pub fn initialize_step(attempt: usize, error: Option<&str>) -> (r: InitStep)
    requires
        attempt < CONNECTION_INITIALIZE_RETRIES,
    ensures
        r == step_after(
            attempt,
            match error {
                Some(m) => Some(m@),
                None => None,
            },
        ),
{
    match error {
        None => InitStep::Done,
        Some(message) => {
            if is_schema_lock_error(message) && attempt + 1 < CONNECTION_INITIALIZE_RETRIES {
                InitStep::Retry
            } else {
                InitStep::Fail
            }
        },
    }
}

/// How many writes a database has seen.
#[derive(Debug)]
pub struct WriteGeneration {
    pub count: u64,
}

impl WriteGeneration {
    /// How many writes there were.
    pub fn write_generation(&self) -> (r: u64)
        ensures
            r == self.count,
    {
        self.count
    }

    /// Takes in that something was done in the order of writes. Taking an image does not
    /// count, or the database would never seem saved.
    pub fn completed(&mut self, counts_as_write: bool)
        ensures
            final(self).count == one_done(old(self).count, counts_as_write),
    {
        if counts_as_write {
            self.count = self.count.wrapping_add(1);
        }
    }
}

/// The count of writes after one more thing was done, which is a write or not. It begins anew
/// after the largest number.
pub open spec fn one_done(count: u64, counts_as_write: bool) -> u64 {
    if !counts_as_write {
        count
    } else if count == u64::MAX {
        0
    } else {
        (count + 1) as u64
    }
}

/// The count of writes after things were done, each of which is a write or not.
pub open spec fn all_done(count: u64, done: Seq<bool>) -> u64
    decreases done.len(),
{
    if done.len() == 0 {
        count
    } else {
        one_done(all_done(count, done.drop_last()), done.last())
    }
}

/// How many of the things that were done are writes.
pub open spec fn writes_in(done: Seq<bool>) -> nat
    decreases done.len(),
{
    if done.len() == 0 {
        0
    } else {
        writes_in(done.drop_last()) + if done.last() {
            1nat
        } else {
            0
        }
    }
}

/// The count tells how many writes there were, whatever was done between them and in
/// whatever order: it grows by the number of writes, as long as that fits.
pub proof fn law_writes_are_counted(count: u64, done: Seq<bool>)
    requires
        count + writes_in(done) <= u64::MAX,
    ensures
        all_done(count, done) == count + writes_in(done),
    decreases done.len(),
{
    if done.len() > 0 {
        law_writes_are_counted(count, done.drop_last());
    }
}

/// A database that was set up has seen a write, as setting it up is one.
pub proof fn law_a_built_database_was_written(done: Seq<bool>)
    requires
        done.len() > 0,
        done[0],
        writes_in(done) <= u64::MAX,
    ensures
        all_done(0, done) >= 1,
{
    law_writes_are_counted(0, done);
    lemma_first_write(done);
}

proof fn lemma_first_write(done: Seq<bool>)
    requires
        done.len() > 0,
        done[0],
    ensures
        writes_in(done) >= 1,
    decreases done.len(),
{
    if done.len() > 1 {
        lemma_first_write(done.drop_last());
    }
}

/// How the writes to a database take turns.
#[derive(Debug, Clone, Copy, PartialEq, Eq, Structural)]
pub enum WriteQueueKind {
    /// A thread does them one after the other.
    BackgroundThread,
    /// Whoever writes waits for the one lock of the engine.
    WasmLock,
    /// Whoever writes waits for a lock of the database.
    Locking,
}

/// How the writes to a database take turns where nothing else was asked for: by a thread,
/// or, in a browser, which cannot start one, by the lock of the engine.
pub fn default_write_queue(browser: bool) -> (r: WriteQueueKind)
    ensures
        r == if browser {
            WriteQueueKind::WasmLock
        } else {
            WriteQueueKind::BackgroundThread
        },
{
    if browser {
        WriteQueueKind::WasmLock
    } else {
        WriteQueueKind::BackgroundThread
    }
}

/// The databases whose writes take turns already.
#[derive(Debug)]
pub struct QueueRegistry {
    pub queues: Vec<(String, WriteQueueKind)>,
}

/// How the writes to a database take turns, if that was decided.
pub open spec fn queue_of(queues: Seq<(String, WriteQueueKind)>, uri: Seq<char>) -> Option<
    WriteQueueKind,
>
    decreases queues.len(),
{
    if queues.len() == 0 {
        None
    } else if queues[0].0@ == uri {
        Some(queues[0].1)
    } else {
        queue_of(queues.skip(1), uri)
    }
}

proof fn lemma_queue_of_push(queues: Seq<(String, WriteQueueKind)>, entry: (String, WriteQueueKind), uri: Seq<char>)
    ensures
        queue_of(queues.push(entry), uri) == match queue_of(queues, uri) {
            Some(kind) => Some(kind),
            None => if entry.0@ == uri {
                Some(entry.1)
            } else {
                None
            },
        },
    decreases queues.len(),
{
    if queues.len() == 0 {
        assert(queues.push(entry).skip(1) =~= queues);
    } else {
        lemma_queue_of_push(queues.skip(1), entry, uri);
        assert(queues.push(entry).skip(1) =~= queues.skip(1).push(entry));
    }
}

impl QueueRegistry {
    /// How the writes to a database take turns, if that was decided.
    pub fn queue(&self, uri: &str) -> (r: Option<WriteQueueKind>)
        ensures
            r == queue_of(self.queues@, uri@),
    {
        let mut i: usize = 0;
        proof {
            assert(self.queues@.skip(0) =~= self.queues@);
        }
        while i < self.queues.len()
            invariant
                i <= self.queues@.len(),
                queue_of(self.queues@.skip(i as int), uri@) == queue_of(self.queues@, uri@),
            decreases self.queues@.len() - i,
        {
            proof {
                assert(self.queues@.skip(i as int).skip(1) =~= self.queues@.skip(i + 1));
            }
            if same(self.queues[i].0.as_str(), uri) {
                return Some(self.queues[i].1);
            }
            i = i + 1;
        }
        None
    }

    /// Decides how the writes to a database take turns, unless that was decided before.
    /// Returns whether it was decided now.
    pub fn initialize_queues(&mut self, uri: &str, wanted: Option<WriteQueueKind>, browser: bool)
        -> (r: bool)
        ensures
            r == (queue_of(old(self).queues@, uri@) is None),
            !r ==> *final(self) == *old(self),
            queue_of(final(self).queues@, uri@) == match queue_of(old(self).queues@, uri@) {
                Some(kind) => Some(kind),
                None => Some(
                    match wanted {
                        Some(kind) => kind,
                        None => if browser {
                            WriteQueueKind::WasmLock
                        } else {
                            WriteQueueKind::BackgroundThread
                        },
                    },
                ),
            },
            forall|other: Seq<char>|
                other != uri@ ==> #[trigger] queue_of(final(self).queues@, other) == queue_of(
                    old(self).queues@,
                    other,
                ),
    {
        if self.queue(uri).is_some() {
            return false;
        }
        let kind = match wanted {
            Some(kind) => kind,
            None => default_write_queue(browser),
        };
        let entry = (uri.to_owned(), kind);
        self.queues.push(entry);
        proof {
            let before = old(self).queues@;
            lemma_queue_of_push(before, entry, uri@);
            assert forall|other: Seq<char>| other != uri@ implies #[trigger] queue_of(
                self.queues@,
                other,
            ) == queue_of(before, other) by {
                lemma_queue_of_push(before, entry, other);
            }
        }
        true
    }
}

/// The one lock of the engine in a browser. Whoever holds it may take it again.
#[derive(Debug)]
pub struct WasmLock {
    /// Who holds it; nobody where this is zero.
    pub owner: u64,
    /// How often the holder has taken it.
    pub depth: usize,
}

impl WasmLock {
    /// It is held exactly as long as it was taken more often than given back.
    pub open spec fn wf(self) -> bool {
        self.owner == 0 <==> self.depth == 0
    }

    /// Whether someone may take it.
    pub open spec fn free_for(self, me: u64) -> bool {
        self.owner == 0 || self.owner == me
    }

    /// The lock once someone took it who may.
    pub open spec fn taken(self, me: u64) -> WasmLock {
        if self.owner == me {
            WasmLock { owner: me, depth: (self.depth + 1) as usize }
        } else {
            WasmLock { owner: me, depth: 1 }
        }
    }

    /// The lock once it was given back.
    pub open spec fn given_back(self) -> WasmLock {
        if self.depth == 1 {
            WasmLock { owner: 0, depth: 0 }
        } else {
            WasmLock { owner: self.owner, depth: (self.depth - 1) as usize }
        }
    }

    /// Nobody holds it.
    pub fn new() -> (r: WasmLock)
        ensures
            r.wf(),
            r.owner == 0,
    {
        WasmLock { owner: 0, depth: 0 }
    }

    /// Takes the lock, unless someone else holds it. Returns whether it was taken.
    pub fn try_lock(&mut self, me: u64) -> (r: bool)
        requires
            old(self).wf(),
            me != 0,
            old(self).depth < usize::MAX,
        ensures
            final(self).wf(),
            r == old(self).free_for(me),
            *final(self) == if r {
                old(self).taken(me)
            } else {
                *old(self)
            },
    {
        if self.owner == me {
            self.depth = self.depth + 1;
            return true;
        }
        if self.owner != 0 {
            return false;
        }
        self.owner = me;
        self.depth = 1;
        true
    }

    /// Gives the lock back once.
    pub fn unlock(&mut self)
        requires
            old(self).wf(),
            old(self).owner != 0,
        ensures
            final(self).wf(),
            *final(self) == old(self).given_back(),
    {
        if self.depth == 1 {
            self.owner = 0;
            self.depth = 0;
        } else {
            self.depth = self.depth - 1;
        }
    }

    /// Whether someone may take the lock.
    pub fn is_free_for(&self, me: u64) -> (r: bool)
        ensures
            r == self.free_for(me),
    {
        self.owner == 0 || self.owner == me
    }

    /// Whether someone holds the lock.
    pub fn is_held_by(&self, me: u64) -> (r: bool)
        ensures
            r == (self.owner == me),
    {
        self.owner == me
    }
}

/// Carries out a write under the lock of the engine, at once. The write is handed the lock as
/// it is while it is held, so that it may queue a write of its own, and hands it back like
/// that; then the lock is given back.
pub fn wasm_lock_queue<F: FnOnce(WasmLock) -> WasmLock>(
    lock: &mut WasmLock,
    me: u64,
    queued_write: F,
)
    requires
        old(lock).wf(),
        old(lock).free_for(me),
        me != 0,
        old(lock).depth < usize::MAX,
        queued_write.requires((old(lock).taken(me),)),
        forall|after: WasmLock|
            queued_write.ensures((old(lock).taken(me),), after) ==> after == old(lock).taken(me),
    ensures
        queued_write.ensures((old(lock).taken(me),), old(lock).taken(me)),
        *final(lock) == *old(lock),
{
    proof {
        law_locks_nest(*lock, me);
    }
    let taken = lock.try_lock(me);
    if taken {
        let held = WasmLock { owner: lock.owner, depth: lock.depth };
        let back = queued_write(held);
        *lock = back;
        lock.unlock();
    }
}

/// The lock nests: taken and given back once more, it is as before.
pub proof fn law_locks_nest(lock: WasmLock, me: u64)
    requires
        lock.wf(),
        lock.free_for(me),
        me != 0,
        lock.depth < usize::MAX,
    ensures
        lock.taken(me).wf(),
        lock.taken(me).owner == me,
        lock.taken(me).given_back() == lock,
{
}

/// A write within a write is carried out at once: while someone writes, the lock is free for
/// them and for nobody else, and once the inner write is done they hold it as before it.
pub proof fn law_writes_nest(lock: WasmLock, me: u64, other: u64)
    requires
        lock.wf(),
        lock.free_for(me),
        me != 0,
        other != 0,
        other != me,
        lock.depth + 1 < usize::MAX,
    ensures
        ({
            let held = lock.taken(me);
            &&& held.wf()
            &&& held.free_for(me)
            &&& held.depth < usize::MAX
            &&& !held.free_for(other)
            &&& !held.taken(me).free_for(other)
            &&& held.taken(me).given_back() == held
            &&& held.given_back() == lock
        }),
{
}

/// Nobody gets the lock while someone else holds it.
pub proof fn law_locks_exclude(lock: WasmLock, holder: u64, other: u64)
    requires
        lock.wf(),
        lock.free_for(holder),
        holder != 0,
        other != 0,
        holder != other,
    ensures
        !lock.taken(holder).free_for(other),
{
}

/// An image is looked at where it has at least a header, is at most 12 MiB, and begins as the
/// files of the engine do.
pub proof fn law_images_begin_as_files_do(image: Seq<u8>)
    ensures
        image.len() > 12_582_912 <==> image_fault(image) == Some(ImageFault::TooLarge),
        image.len() < 100 <==> image_fault(image) == Some(ImageFault::TooShort),
        image_fault(image) is None <==> {
            &&& 100 <= image.len() <= 12_582_912
            &&& image[15] == 0
            &&& forall|i: int| 0 <= i < 15 ==> image[i] == #[trigger] "SQLite format 3"@[i] as u8
        },
{
    reveal_strlit("SQLite format 3");
    let text = "SQLite format 3"@;
    let magic = image_magic();
    assert(magic.len() == 16 && magic[15] == 0);
    assert forall|i: int| 0 <= i < 15 implies magic[i] == #[trigger] text[i] as u8 by {
        assert(magic[0] == text[0] as u8 && magic[1] == text[1] as u8 && magic[2] == text[2] as u8
            && magic[3] == text[3] as u8 && magic[4] == text[4] as u8 && magic[5] == text[5] as u8
            && magic[6] == text[6] as u8 && magic[7] == text[7] as u8 && magic[8] == text[8] as u8
            && magic[9] == text[9] as u8 && magic[10] == text[10] as u8 && magic[11]
            == text[11] as u8 && magic[12] == text[12] as u8 && magic[13] == text[13] as u8
            && magic[14] == text[14] as u8);
    }
    if 100 <= image.len() {
        if image.take(16) == magic {
            assert forall|i: int| 0 <= i < 15 implies image[i] == #[trigger] text[i] as u8 by {
                assert(image.take(16)[i] == image[i]);
            }
            assert(image.take(16)[15] == image[15]);
        }
        if image[15] == 0 && (forall|i: int|
            0 <= i < 15 ==> image[i] == #[trigger] text[i] as u8) {
            assert forall|i: int| 0 <= i < 16 implies image.take(16)[i] == magic[i] by {
                if i < 15 {
                    assert(image[i] == text[i] as u8);
                }
            }
            assert(image.take(16) =~= magic);
        }
    }
}

/// An image is accepted only where the engine can read it, finds it in order, and finds
/// nothing but tables and indexes in it; every such image is.
pub proof fn law_images_are_accepted_in_order(f: ImageFindings)
    ensures
        findings_ok(f) ==> f.schema is Ok && f.quick_check is Ok && f.quick_check->Ok_0 is Some
            && f.quick_check->Ok_0->0@ == "ok"@,
        f.foreign_objects is Some && f.foreign_objects->0 != 0 ==> !findings_ok(f),
        f.schema is Ok && f.quick_check is Ok && f.quick_check->Ok_0 is Some
            && f.quick_check->Ok_0->0@ == "ok"@ && f.foreign_objects == Some(0i64) ==> findings_ok(
            f,
        ),
{
}

/// A budget lasts for just as many questions as it has steps.
pub proof fn law_budgets_last(remaining: nat, n: nat)
    ensures
        n <= remaining ==> after_ticks(remaining, n) + n == remaining,
{
}

/// A word is found behind any white space, whole, and ends where white space begins.
pub proof fn law_words_are_found(blank: Seq<char>, word: Seq<char>, rest: Seq<char>)
    requires
        forall|i: int| 0 <= i < blank.len() ==> white_space(#[trigger] blank[i]),
        forall|i: int| 0 <= i < word.len() ==> !white_space(#[trigger] word[i]),
        word.len() > 0,
        rest.len() > 0 ==> white_space(rest[0]),
    ensures
        take_word(skip_blank(blank + word + rest)) == word,
    decreases blank.len(),
{
    let s = blank + word + rest;
    if blank.len() > 0 {
        assert(white_space(blank[0]));
        assert(s[0] == blank[0]);
        assert(s.skip(1) =~= blank.skip(1) + word + rest);
        assert forall|i: int| 0 <= i < blank.skip(1).len() implies white_space(
            #[trigger] blank.skip(1)[i],
        ) by {
            assert(white_space(blank[i + 1]));
        }
        law_words_are_found(blank.skip(1), word, rest);
    } else {
        assert(s =~= word + rest);
        assert(!white_space(word[0]));
        assert(s[0] == word[0]);
        lemma_take_word(word, rest);
    }
}

proof fn lemma_take_word(word: Seq<char>, rest: Seq<char>)
    requires
        forall|i: int| 0 <= i < word.len() ==> !white_space(#[trigger] word[i]),
        rest.len() > 0 ==> white_space(rest[0]),
    ensures
        take_word(word + rest) == word,
    decreases word.len(),
{
    let s = word + rest;
    if word.len() > 0 {
        assert(!white_space(word[0]));
        assert(s.skip(1) =~= word.skip(1) + rest);
        assert forall|i: int| 0 <= i < word.skip(1).len() implies !white_space(
            #[trigger] word.skip(1)[i],
        ) by {
            assert(!white_space(word[i + 1]));
        }
        lemma_take_word(word.skip(1), rest);
        assert(seq![word[0]] + word.skip(1) =~= word);
    } else {
        assert(s =~= rest);
    }
}

/// The word behind the first occurrence of a keyword is found, in a statement of plain
/// characters up to it.
pub proof fn law_the_word_behind_a_keyword(
    before: Seq<char>,
    keyword: Seq<char>,
    blank: Seq<char>,
    word: Seq<char>,
    rest: Seq<char>,
)
    requires
        keyword.len() > 0,
        vstd::utf8::is_ascii_chars(before),
        forall|i: int|
            0 <= i < before.len() ==> !begins(
                #[trigger] (before + keyword + (blank + word + rest)).skip(i),
                keyword,
            ),
        forall|i: int| 0 <= i < blank.len() ==> white_space(#[trigger] blank[i]),
        forall|i: int| 0 <= i < word.len() ==> !white_space(#[trigger] word[i]),
        word.len() > 0,
        rest.len() > 0 ==> white_space(rest[0]),
    ensures
        word_after(before + keyword + (blank + word + rest), keyword) == Some(word),
{
    let tail = blank + word + rest;
    let s = before + keyword + tail;
    let n = before.len() as int;
    law_cut_at_the_first_text(s, keyword);
    assert(s.skip(n).take(keyword.len() as int) =~= keyword);
    assert(begins(s.skip(n), keyword));
    let parts = cut_text(s, keyword);
    assert(parts is Some);
    let (a, b) = parts->0;
    let k = text_position(s, keyword);
    assert(a == s.take(k));
    if a.len() < n {
        assert((a + keyword + b).skip(a.len() as int).take(keyword.len() as int) =~= keyword);
        assert(begins(s.skip(a.len() as int), keyword));
        assert(false);
    }
    if a.len() > n {
        assert(!begins(s.skip(n), keyword));
    }
    assert(a.len() == n);
    assert(s.take(n) =~= before);
    assert(0 <= k <= s.len()) by {
        lemma_text_position(s, keyword);
    }
    assert(k == n);
    vstd::utf8::is_ascii_chars_encode_utf8(before);
    assert(byte_len(before) == n);
    assert(s.skip(n + keyword.len()) =~= tail);
    law_words_are_found(blank, word, rest);
}

/// Only a statement that alters a table names one; the column is the one that is renamed or
/// dropped, and any other where none is.
pub proof fn law_altered_tables_are_named(lower: Seq<char>)
    ensures
        altered_table(lower) is Some ==> {
            &&& begins(lower, "alter"@)
            &&& word_after(lower, "table"@) == Some((altered_table(lower)->0).0)
            &&& (altered_table(lower)->0).0.len() > 0
            &&& word_after(lower, "rename column"@) is Some ==> Some((altered_table(lower)->0).1)
                == word_after(lower, "rename column"@)
            &&& word_after(lower, "rename column"@) is None && word_after(
                lower,
                "drop column"@,
            ) is Some ==> Some((altered_table(lower)->0).1) == word_after(lower, "drop column"@)
        },
        begins(lower, "alter"@) && word_after(lower, "table"@) is Some && word_after(
            lower,
            "table"@,
        )->0.len() > 0 ==> altered_table(lower) is Some,
{
}

/// A text holds no statement where there is nothing in it but white space and one semicolon.
pub proof fn law_statements_are_what_is_left(rest: Seq<char>)
    ensures
        trimmed(rest).len() == 0 ==> !any_statement(rest),
        trimmed(rest).len() > 1 ==> any_statement(rest),
        trimmed(rest).len() == 1 ==> any_statement(rest) == (trimmed(rest)[0] != ';'),
{
    reveal_strlit(";");
    if trimmed(rest).len() == 1 && trimmed(rest)[0] == ';' {
        assert(trimmed(rest) =~= ";"@);
    }
}

/// The first entry of a database says how its writes take turns.
pub proof fn law_queues_are_looked_up(
    queues: Seq<(String, WriteQueueKind)>,
    uri: Seq<char>,
    k: int,
)
    requires
        0 <= k <= queues.len(),
        forall|i: int| 0 <= i < k ==> (#[trigger] queues[i]).0@ != uri,
        k < queues.len() ==> queues[k].0@ == uri,
    ensures
        k < queues.len() ==> queue_of(queues, uri) == Some(queues[k].1),
        k == queues.len() ==> queue_of(queues, uri) is None,
    decreases k,
{
    if k > 0 {
        assert(queues[0].0@ != uri);
        let rest = queues.skip(1);
        assert forall|i: int| 0 <= i < k - 1 implies (#[trigger] rest[i]).0@ != uri by {
            assert(queues[i + 1].0@ != uri);
        }
        law_queues_are_looked_up(rest, uri, k - 1);
    }
}

/// An error is worth another try exactly where it says that the database or its schema is
/// locked, wherever in its text.
pub proof fn law_locks_are_worth_another_try(before: Seq<char>, after: Seq<char>)
    ensures
        lock_error(before + "database is locked"@ + after),
        lock_error(before + "database schema is locked"@ + after),
        !lock_error(Seq::empty()),
{
    let i = before.len() as int;
    let one = before + "database is locked"@ + after;
    let two = before + "database schema is locked"@ + after;
    assert(one.subrange(i, i + "database is locked"@.len()) =~= "database is locked"@);
    assert(two.subrange(i, i + "database schema is locked"@.len())
        =~= "database schema is locked"@);
    reveal_strlit("database is locked");
    reveal_strlit("database schema is locked");
}

/// Who holds the lock has it once more, and who takes it free has it once; it is given back
/// as often as it was taken.
pub proof fn law_the_lock_counts(lock: WasmLock, me: u64)
    requires
        lock.wf(),
        me != 0,
        lock.depth < usize::MAX,
    ensures
        lock.owner == me ==> lock.taken(me).depth == lock.depth + 1,
        lock.owner == 0 ==> lock.taken(me).depth == 1,
        lock.taken(me).owner == me,
        lock.free_for(me) <==> lock.owner == 0 || lock.owner == me,
        lock.depth > 1 ==> lock.given_back().owner == lock.owner && lock.given_back().depth + 1
            == lock.depth,
        lock.depth == 1 ==> lock.given_back().owner == 0 && lock.given_back().depth == 0,
{
}

/// Why an image was not restored.
pub open spec fn restore_fault(stages: RestoreStages) -> Option<Seq<char>> {
    match stages.opened {
        Err(m) => Some(m@),
        Ok(()) => match stages.migrated {
            Err(m) => Some("migrating the restored image: "@ + m@),
            Ok(()) => match stages.copied {
                Err(m) => Some("copying the restored image into the database: "@ + m@),
                Ok(()) => None,
            },
        },
    }
}

/// An image is restored exactly where it could be opened, migrated and copied.
pub proof fn law_images_are_restored_whole(stages: RestoreStages)
    ensures
        restore_fault(stages) is None <==> stages.opened is Ok && stages.migrated is Ok
            && stages.copied is Ok,
        stages.opened is Err ==> restore_fault(stages) == Some(stages.opened->Err_0@),
        stages.opened is Ok && stages.migrated is Err ==> restore_fault(stages) == Some(
            "migrating the restored image: "@ + stages.migrated->Err_0@,
        ),
{
}

/// What became of copying a database into another.
pub open spec fn copied(codes: BackupCodes) -> Result<(), BackupFault> {
    if !codes.begun {
        Err(BackupFault::NotBegun)
    } else if codes.step != 101 {
        Err(BackupFault::Step(codes.step))
    } else if codes.finish != 0 {
        Err(BackupFault::Finish(codes.finish))
    } else {
        Ok(())
    }
}

/// A copy is whole exactly where it was begun, every page was copied, and it ended without an
/// error; the first code that is not as it should be is reported.
pub proof fn law_copies_are_whole(codes: BackupCodes)
    ensures
        copied(codes) is Ok <==> codes.begun && codes.step == 101 && codes.finish == 0,
        codes.begun && codes.step != 101 ==> copied(codes) == Err::<(), BackupFault>(
            BackupFault::Step(codes.step),
        ),
        codes.begun && codes.step == 101 && codes.finish != 0 ==> copied(codes) == Err::<
            (),
            BackupFault,
        >(BackupFault::Finish(codes.finish)),
        !codes.begun ==> copied(codes) == Err::<(), BackupFault>(BackupFault::NotBegun),
{
}

/// What is done after a try to set a connection up.
pub open spec fn step_after(attempt: usize, error: Option<Seq<char>>) -> InitStep {
    match error {
        None => InitStep::Done,
        Some(m) => if lock_error(m) && attempt + 1 < CONNECTION_INITIALIZE_RETRIES {
            InitStep::Retry
        } else {
            InitStep::Fail
        },
    }
}

/// A connection is set up in at most 50 tries, and tried again only while something is locked.
pub proof fn law_connections_are_tried_again(attempt: usize, message: Seq<char>)
    requires
        attempt < 50,
    ensures
        step_after(attempt, None) == InitStep::Done,
        step_after(attempt, Some(message)) != InitStep::Done,
        step_after(49, Some(message)) == InitStep::Fail,
        attempt < 49 && lock_error(message) ==> step_after(attempt, Some(message))
            == InitStep::Retry,
        !lock_error(message) ==> step_after(attempt, Some(message)) == InitStep::Fail,
{
}

/// A syntax error is reported with the engine's message, at its place in the whole text; a
/// statement without one is passed over, whole, and the scan goes on behind it.
pub proof fn law_syntax_errors_are_found(
    scan: SyntaxScan,
    code: i32,
    offset: i32,
    message: String,
    left: String,
    found: Option<(String, usize)>,
    after: SyntaxScan,
)
    requires
        scan.scanned(code, offset, message, left, found, after),
        byte_len(left@) <= byte_len(scan.rest@),
        scan.done + byte_len(scan.rest@) <= usize::MAX,
        offset <= byte_len(scan.rest@),
    ensures
        found is Some <==> code == 1 && offset >= 0,
        found is Some ==> (found->0).0 == message && (found->0).1 == scan.done + offset,
        found is None ==> after.rest == left && after.done >= scan.done,
        found is None ==> after.done - scan.done == byte_len(scan.rest@) - byte_len(left@),
{
}

/// Where a keyword does not occur there is no word behind it, and where it does there is one;
/// it is empty where nothing is left of the statement.
pub proof fn law_words_need_their_keyword(s: Seq<char>, keyword: Seq<char>)
    requires
        keyword.len() > 0,
    ensures
        word_after(s, keyword) is Some <==> exists|i: int|
            0 <= i <= s.len() && begins(#[trigger] s.skip(i), keyword),
        word_after(s, keyword) is Some && skipped(s, keyword) >= s.len() ==> word_after(
            s,
            keyword,
        )->0.len() == 0,
        0 <= skipped(s, keyword) <= s.len(),
{
    lemma_text_position(s, keyword);
    law_cut_at_the_first_text(s, keyword);
    let k = text_position(s, keyword);
    if cut_text(s, keyword) is Some {
        assert(begins(s.skip(k), keyword));
    }
    if skipped(s, keyword) >= s.len() {
        assert(s.skip(skipped(s, keyword)).len() == 0);
    }
}

/// Whatever is no write leaves the count as it is; a write adds one, and behind the largest
/// number the count begins anew.
pub proof fn law_the_count_of_writes_begins_anew(count: u64)
    ensures
        one_done(count, false) == count,
        one_done(u64::MAX, true) == 0,
        count < u64::MAX ==> one_done(count, true) == count + 1,
        one_done(count, true) != count,
{
}

/// A statement that renames no column and drops none is checked against a column that no table
/// has; the scan stands still at a syntax error.
pub proof fn law_syntax_checks_make_do(
    lower: Seq<char>,
    scan: SyntaxScan,
    code: i32,
    offset: i32,
    message: String,
    left: String,
    found: (String, usize),
    after: SyntaxScan,
)
    ensures
        altered_table(lower) is Some && word_after(lower, "rename column"@) is None && word_after(
            lower,
            "drop column"@,
        ) is None ==> (altered_table(lower)->0).1 == "__place_holder_column_for_syntax_checking"@,
        scan.scanned(code, offset, message, left, Some(found), after) ==> after == scan,
{
}

} // verus!
