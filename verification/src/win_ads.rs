//! Alternate data streams of NTFS files: their names, and the list that a file has.
//!
//! The system reports a stream as `:<name>:$DATA`. The unnamed stream, `::$DATA`, is the body of
//! the file itself and is stored with the file; all the others are stored beside it.

use vstd::prelude::*;
use vstd::slice::slice_subrange;
use vstd::string::StrSliceExecFns;

use crate::order::{char_order, compare_text, lemma_char_order, lemma_lex_zero};

verus! {

/// The attribute bit that marks a reparse point.
pub const FILE_ATTRIBUTE_REPARSE_POINT: u32 = 0x0000_0400;

/// The system's answer when there is no further stream.
pub const ERROR_HANDLE_EOF: i32 = 38;

/// A stream name must not hold this character.
pub open spec fn is_forbidden(c: char) -> bool {
    ||| c == '<'
    ||| c == '>'
    ||| c == ':'
    ||| c == '"'
    ||| c == '/'
    ||| c == '\\'
    ||| c == '|'
    ||| c == '?'
    ||| c == '*'
    ||| c == '\0'
}

/// `s` can be the name of a stream: it is not empty and holds no forbidden character.
pub open spec fn is_stream_name(s: Seq<char>) -> bool {
    s.len() > 0 && forall|i: int| 0 <= i < s.len() ==> !is_forbidden(#[trigger] s[i])
}

/// Why a text is no stream name.
#[derive(Debug, Clone, Copy, PartialEq, Eq)]
pub enum AdsNameError {
    /// The text is empty.
    Empty,
    /// The text holds a character that it must not hold; this is the first such one.
    Forbidden(char),
}

/// A valid name of an alternate data stream, such as `Zone.Identifier`.
#[derive(Debug, PartialEq, Eq, Hash)]
pub struct AdsName(String);

impl View for AdsName {
    type V = Seq<char>;

    closed spec fn view(&self) -> Seq<char> {
        self.0@
    }
}

impl Clone for AdsName {
    fn clone(&self) -> (r: AdsName)
        ensures
            r@ == self@,
    {
        proof {
            use_type_invariant(self);
        }
        AdsName(self.0.clone())
    }
}

impl AsRef<str> for AdsName {
    fn as_ref(&self) -> (r: &str)
        ensures
            r@ == self@,
    {
        self.0.as_str()
    }
}

fn check_char(c: char) -> (r: bool)
    ensures
        r == is_forbidden(c),
{
    c == '<' || c == '>' || c == ':' || c == '"' || c == '/' || c == '\\' || c == '|' || c == '?'
        || c == '*' || c == '\0'
}

/// The characters that a stream name must not hold are those that a path gives a meaning, and the
/// NUL.
pub proof fn law_forbidden_characters(c: char)
    ensures
        is_forbidden(c) <==> "<>:\"/\\|?*\0"@.contains(c),
{
    reveal_strlit("<>:\"/\\|?*\0");
    let all = "<>:\"/\\|?*\0"@;
    assert(all.len() == 10);
    assert(all[0] == '<' && all[1] == '>' && all[2] == ':' && all[3] == '"' && all[4] == '/');
    assert(all[5] == '\\' && all[6] == '|' && all[7] == '?' && all[8] == '*' && all[9] == '\0');
    if is_forbidden(c) {
        assert(exists|i: int| 0 <= i < 10 && all[i] == c);
    }
}

/// A name is refused exactly if it is empty, or holds one of those characters anywhere.
pub proof fn law_names_without_forbidden_characters_are_taken(s: Seq<char>)
    ensures
        is_stream_name(s) <==> s.len() > 0 && forall|i: int|
            0 <= i < s.len() ==> !"<>:\"/\\|?*\0"@.contains(#[trigger] s[i]),
{
    assert forall|i: int| 0 <= i < s.len() implies is_forbidden(#[trigger] s[i])
        == "<>:\"/\\|?*\0"@.contains(s[i]) by {
        law_forbidden_characters(s[i]);
    }
}

impl AdsName {
    #[verifier::type_invariant]
    spec fn valid(self) -> bool {
        is_stream_name(self.0@)
    }

    /// Takes a stream name, unless it is empty or holds a forbidden character.
    pub fn new(s: &str) -> (r: Result<AdsName, AdsNameError>)
        ensures
            r is Ok <==> is_stream_name(s@),
            r matches Ok(name) ==> name@ == s@,
            r == Err::<AdsName, AdsNameError>(AdsNameError::Empty) <==> s@.len() == 0,
            forall|c: char|
                r == Err::<AdsName, AdsNameError>(AdsNameError::Forbidden(c)) <==> exists|i: int|
                    {
                        &&& 0 <= i < s@.len()
                        &&& #[trigger] s@[i] == c
                        &&& is_forbidden(c)
                        &&& forall|j: int| 0 <= j < i ==> !is_forbidden(#[trigger] s@[j])
                    },
    {
        if s.is_empty() {
            return Err(AdsNameError::Empty);
        }
        for c in it: s.chars()
            invariant
                it.seq() == s@,
                forall|j: int| 0 <= j < it.index() ==> !is_forbidden(#[trigger] s@[j]),
        {
            if check_char(c) {
                assert(s@[it.index() as int] == c);
                return Err(AdsNameError::Forbidden(c));
            }
        }
        Ok(AdsName(s.to_owned()))
    }

    /// The name as text.
    pub fn as_str(&self) -> (r: &str)
        ensures
            r@ == self@,
            is_stream_name(r@),
    {
        proof {
            use_type_invariant(self);
        }
        self.0.as_str()
    }
}

/// A wide string closed by a NUL, as the system takes it.
pub fn wide(units: &[u16]) -> (r: Vec<u16>)
    ensures
        r@ == units@.push(0),
{
    let mut r: Vec<u16> = Vec::new();
    r.extend_from_slice(units);
    assert(r@ =~= units@);
    r.push(0);
    r
}

/// How the system reports the stream `name`.
pub open spec fn envelope(name: Seq<char>) -> Seq<char> {
    seq![':'] + name + ":$DATA"@
}

/// Strips the `:<name>:$DATA` of a reported stream down to the name. The unnamed stream gives
/// `None`, and so does everything that is no data stream.
pub fn canonical_stream_name(raw: &str) -> (r: Option<&str>)
    ensures
        r matches Some(name) ==> raw@ == envelope(name@) && name@.len() > 0,
        r is None ==> forall|name: Seq<char>| name.len() > 0 ==> raw@ != #[trigger] envelope(name),
{
    let n: usize = raw.unicode_len();
    proof {
        reveal_strlit(":$DATA");
        reveal_strlit(":");
        lemma_char_order();
        assert forall|name: Seq<char>| #[trigger] envelope(name).len() == name.len() + 7 by {}
    }
    if n < 8 {
        return None;
    }
    let tail: &str = raw.substring_char(n - 6, n);
    let head: &str = raw.substring_char(0, 1);
    proof {
        lemma_lex_zero(char_order(), tail@, ":$DATA"@);
        lemma_lex_zero(char_order(), head@, ":"@);
    }
    if compare_text(tail, ":$DATA") != 0 || compare_text(head, ":") != 0 {
        assert forall|name: Seq<char>| name.len() > 0 implies raw@ != #[trigger] envelope(name) by {
            if raw@ == envelope(name) {
                assert(tail@ =~= ":$DATA"@);
                assert(head@ =~= ":"@);
            }
        }
        return None;
    }
    let name: &str = raw.substring_char(1, n - 6);
    assert(raw@ =~= envelope(name@)) by {
        assert forall|i: int| 0 <= i < raw@.len() implies raw@[i] == envelope(name@)[i] by {
            if i == 0 {
                assert(head@[0] == ":"@[0]);
            } else if i >= n - 6 {
                assert(tail@[i - (n - 6)] == ":$DATA"@[i - (n - 6)]);
            }
        }
    }
    Some(name)
}

/// Two names have one envelope only if they are the same, so [`canonical_stream_name`] gives back
/// the name that an envelope was put around.
pub proof fn law_envelope_keeps_the_name(a: Seq<char>, b: Seq<char>)
    requires
        envelope(a) == envelope(b),
    ensures
        a == b,
{
    reveal_strlit(":$DATA");
    assert(envelope(a).subrange(1, envelope(a).len() - 6) =~= a);
    assert(envelope(b).subrange(1, envelope(b).len() - 6) =~= b);
}

/// The envelope of a name is a colon, the name, and `:$DATA`, character by character.
pub proof fn law_envelope_is_spelled_out(name: Seq<char>)
    ensures
        envelope(name).len() == name.len() + 7,
        envelope(name)[0] == ':',
        forall|i: int| 0 <= i < name.len() ==> envelope(name)[i + 1] == #[trigger] name[i],
        envelope(name)[(name.len() + 1) as int] == ':',
        envelope(name)[(name.len() + 2) as int] == '$',
        envelope(name)[(name.len() + 3) as int] == 'D',
        envelope(name)[(name.len() + 4) as int] == 'A',
        envelope(name)[(name.len() + 5) as int] == 'T',
        envelope(name)[(name.len() + 6) as int] == 'A',
{
    reveal_strlit(":$DATA");
}

/// A UTF-16 code unit that stands for a character only together with another one.
pub open spec fn is_surrogate(u: u16) -> bool {
    0xD800 <= u <= 0xDFFF
}

/// The text that UTF-16 code units spell, with U+FFFD for each unit that has no partner.
pub open spec fn utf16_lossy(u: Seq<u16>) -> Seq<char>
    decreases u.len(),
{
    if u.len() == 0 {
        Seq::empty()
    } else if !is_surrogate(u[0]) {
        seq![u[0] as char] + utf16_lossy(u.skip(1))
    } else if u[0] <= 0xDBFF && u.len() > 1 && 0xDC00 <= u[1] <= 0xDFFF {
        seq![(0x1_0000 + (u[0] - 0xD800) * 0x400 + (u[1] - 0xDC00)) as char] + utf16_lossy(
            u.skip(2),
        )
    } else {
        seq!['\u{FFFD}'] + utf16_lossy(u.skip(1))
    }
}

/// `String::from_utf16_lossy`: decodes UTF-16, and puts U+FFFD in place of each unpaired
/// surrogate.
#[verifier::external_body]
fn decode_utf16_lossy(units: &[u16]) -> (r: String)
    ensures
        r@ == utf16_lossy(units@),
{
    String::from_utf16_lossy(units)
}

/// The code units before the first NUL, or all of them.
pub open spec fn before_nul(u: Seq<u16>) -> Seq<u16>
    decreases u.len(),
{
    if u.len() == 0 || u[0] == 0 {
        Seq::empty()
    } else {
        seq![u[0]] + before_nul(u.skip(1))
    }
}

proof fn lemma_before_nul(u: Seq<u16>, n: int)
    requires
        0 <= n <= u.len(),
        forall|i: int| 0 <= i < n ==> u[i] != 0,
        n < u.len() ==> u[n] == 0,
    ensures
        before_nul(u) == u.take(n),
    decreases n,
{
    if n > 0 {
        lemma_before_nul(u.skip(1), n - 1);
        assert(seq![u[0]] + u.skip(1).take(n - 1) =~= u.take(n));
    } else {
        assert(u.take(0) =~= Seq::<u16>::empty());
    }
}

/// A name ends before the first NUL and nowhere else: `n` is the place of the first NUL, or the end
/// where there is none.
pub proof fn law_names_end_at_the_first_nul(u: Seq<u16>, n: int)
    requires
        0 <= n <= u.len(),
        forall|i: int| 0 <= i < n ==> #[trigger] u[i] != 0,
        n < u.len() ==> u[n] == 0,
    ensures
        before_nul(u).len() == n,
        forall|i: int| 0 <= i < n ==> #[trigger] before_nul(u)[i] == u[i],
{
    lemma_before_nul(u, n);
}

/// Code units that are no surrogates are characters of the same number, one for one.
pub proof fn law_plain_code_units_are_characters(u: Seq<u16>)
    requires
        forall|i: int| 0 <= i < u.len() ==> !(0xD800 <= #[trigger] u[i] <= 0xDFFF),
    ensures
        utf16_lossy(u).len() == u.len(),
        forall|i: int| 0 <= i < u.len() ==> #[trigger] utf16_lossy(u)[i] == u[i] as char,
    decreases u.len(),
{
    if u.len() > 0 {
        let rest = u.skip(1);
        assert forall|i: int| 0 <= i < rest.len() implies !(0xD800 <= #[trigger] rest[i]
            <= 0xDFFF) by {
            assert(rest[i] == u[i + 1]);
        }
        law_plain_code_units_are_characters(rest);
        assert forall|i: int| 0 <= i < u.len() implies #[trigger] utf16_lossy(u)[i]
            == u[i] as char by {
            if i > 0 {
                assert(utf16_lossy(u)[i] == utf16_lossy(rest)[i - 1]);
                assert(rest[i - 1] == u[i]);
            }
        }
    }
}

/// A character beyond the first 65536 is written as two code units and read back from them, and a
/// surrogate without a partner is read as U+FFFD, whatever follows.
pub proof fn law_surrogates_are_read_in_pairs(code: u32, lone: u16, rest: Seq<u16>)
    requires
        0x1_0000 <= code <= 0x10_FFFF,
        0xD800 <= lone <= 0xDFFF,
        lone <= 0xDBFF ==> rest.len() == 0 || rest[0] < 0xDC00 || rest[0] > 0xDFFF,
    ensures
        ({
            let high = (0xD800 + (code - 0x1_0000) / 0x400) as u16;
            let low = (0xDC00 + (code - 0x1_0000) % 0x400) as u16;
            utf16_lossy(seq![high, low] + rest) == seq![code as char] + utf16_lossy(rest)
        }),
        utf16_lossy(seq![lone] + rest) == seq!['\u{FFFD}'] + utf16_lossy(rest),
{
    let high = (0xD800 + (code - 0x1_0000) / 0x400) as u16;
    let low = (0xDC00 + (code - 0x1_0000) % 0x400) as u16;
    assert((seq![high, low] + rest).skip(2) =~= rest);
    assert((seq![lone] + rest).skip(1) =~= rest);
    assert(0x1_0000 + (high - 0xD800) * 0x400 + (low - 0xDC00) == code);
}

/// Reads the stream name out of the system's fixed-size buffer, up to the first NUL.
pub fn read_stream_name(buf: &[u16; 296]) -> (r: String)
    ensures
        r@ == utf16_lossy(before_nul(buf@)),
{
    let mut len: usize = 0;
    while len < 296 && buf[len] != 0
        invariant
            len <= 296,
            forall|i: int| 0 <= i < len ==> buf@[i] != 0,
        decreases 296 - len,
    {
        len = len + 1;
    }
    let units: &[u16] = buf.as_slice();
    proof {
        lemma_before_nul(buf@, len as int);
        assert(units@.subrange(0, len as int) =~= buf@.take(len as int));
    }
    decode_utf16_lossy(slice_subrange(units, 0, len))
}

/// One stream as the system reports it.
#[derive(Debug, Clone, Copy)]
pub struct StreamRecord {
    /// The name in its envelope, closed by a NUL unless it fills the buffer.
    pub name: [u16; 296],
    /// The size in bytes.
    pub size: i64,
}

/// The list entry that a reported stream gives: its name and size, if it is a named data stream
/// with a valid name. A negative size counts as none.
pub open spec fn listed(record: StreamRecord) -> Seq<(Seq<char>, int)> {
    let raw = utf16_lossy(before_nul(record.name@));
    let name = raw.subrange(1, raw.len() - 6);
    if raw.len() > 7 && raw == envelope(name) && is_stream_name(name) {
        seq![(
            name,
            if record.size > 0 {
                record.size as int
            } else {
                0
            },
        )]
    } else {
        Seq::empty()
    }
}

/// Every stream with a valid name that the system reports in its envelope is listed, under that
/// name and with that size.
pub proof fn law_reported_streams_are_listed(record: StreamRecord, name: Seq<char>)
    requires
        is_stream_name(name),
        utf16_lossy(before_nul(record.name@)) == envelope(name),
        record.size >= 0,
    ensures
        listed(record) == seq![(name, record.size as int)],
{
    reveal_strlit(":$DATA");
    let raw = envelope(name);
    assert(raw.subrange(1, raw.len() - 6) =~= name);
}

/// The list that reported streams give, in the order of the reports.
pub open spec fn all_listed(records: Seq<StreamRecord>) -> Seq<(Seq<char>, int)>
    decreases records.len(),
{
    if records.len() == 0 {
        Seq::empty()
    } else {
        all_listed(records.drop_last()) + listed(records.last())
    }
}

/// The system reports a data stream of this name in its envelope.
pub open spec fn reports(record: StreamRecord, name: Seq<char>) -> bool {
    utf16_lossy(before_nul(record.name@)) == seq![':'] + name + ":$DATA"@
}

/// The report is one of a stream that is stored beside the file: its name is not empty and holds no
/// forbidden character.
pub open spec fn reports_a_stream(record: StreamRecord) -> bool {
    exists|name: Seq<char>|
        {
            &&& #[trigger] reports(record, name)
            &&& name.len() > 0
            &&& forall|i: int|
                0 <= i < name.len() ==> !"<>:\"/\\|?*\0"@.contains(#[trigger] name[i])
        }
}

/// The size of a reported stream, which is never less than nothing.
pub open spec fn is_reported_size(record: StreamRecord, size: int) -> bool {
    if record.size >= 0 {
        size == record.size
    } else {
        size == 0
    }
}

/// The number of reports of streams that are stored beside the file.
pub open spec fn stream_count(records: Seq<StreamRecord>) -> nat
    decreases records.len(),
{
    if records.len() == 0 {
        0
    } else {
        stream_count(records.drop_last()) + if reports_a_stream(records.last()) {
            1nat
        } else {
            0nat
        }
    }
}

proof fn lemma_one_report(record: StreamRecord)
    ensures
        reports_a_stream(record) ==> listed(record).len() == 1 && reports(
            record,
            listed(record)[0].0,
        ) && is_reported_size(record, listed(record)[0].1),
        !reports_a_stream(record) ==> listed(record).len() == 0,
        reports_a_stream(record) ==> forall|name: Seq<char>| #[trigger]
            reports(record, name) ==> name == listed(record)[0].0,
{
    reveal_strlit(":$DATA");
    let raw = utf16_lossy(before_nul(record.name@));
    if reports_a_stream(record) {
        let name = choose|name: Seq<char>|
            {
                &&& #[trigger] reports(record, name)
                &&& name.len() > 0
                &&& forall|i: int|
                    0 <= i < name.len() ==> !"<>:\"/\\|?*\0"@.contains(#[trigger] name[i])
            };
        law_names_without_forbidden_characters_are_taken(name);
        assert(raw.subrange(1, raw.len() - 6) =~= name);
        assert(raw == envelope(name));
        assert(listed(record)[0].0 == name);
        assert forall|other: Seq<char>| #[trigger] reports(record, other) implies other
            == listed(record)[0].0 by {
            assert(envelope(other) == envelope(name));
            law_envelope_keeps_the_name(other, name);
        }
    } else if listed(record).len() > 0 {
        let name = raw.subrange(1, raw.len() - 6);
        law_names_without_forbidden_characters_are_taken(name);
        assert(reports(record, name));
    }
}

/// The list has as many streams as are reported with a valid name, and each report of one is found
/// in it: the report `i` at the place that counts the reports of streams before it, under the name
/// that was reported and with the size that was reported, however large. So the list keeps the order
/// of the reports.
pub proof fn law_every_reported_stream_is_listed(records: Seq<StreamRecord>)
    ensures
        all_listed(records).len() == stream_count(records),
        forall|i: int|
            0 <= i < records.len() && reports_a_stream(#[trigger] records[i]) ==> {
                let at = stream_count(records.take(i)) as int;
                &&& at < all_listed(records).len()
                &&& reports(records[i], all_listed(records)[at].0)
                &&& is_reported_size(records[i], all_listed(records)[at].1)
            },
    decreases records.len(),
{
    if records.len() > 0 {
        let (front, last) = (records.drop_last(), records.last());
        law_every_reported_stream_is_listed(front);
        lemma_one_report(last);
        assert forall|i: int|
            0 <= i < records.len() && reports_a_stream(#[trigger] records[i]) implies {
            let at = stream_count(records.take(i)) as int;
            &&& at < all_listed(records).len()
            &&& reports(records[i], all_listed(records)[at].0)
            &&& is_reported_size(records[i], all_listed(records)[at].1)
        } by {
            if i < front.len() {
                assert(front[i] == records[i]);
                assert(front.take(i) =~= records.take(i));
                let at = stream_count(front.take(i)) as int;
                assert(all_listed(records)[at] == all_listed(front)[at]);
            } else {
                assert(records.take(i) =~= front);
            }
        }
    }
}

/// A valid name that the system reports in its envelope is in the list, with its size, wherever the
/// report stands and whatever the size is.
pub proof fn law_reported_names_are_in_the_list(
    records: Seq<StreamRecord>,
    i: int,
    name: Seq<char>,
)
    requires
        0 <= i < records.len(),
        name.len() > 0,
        forall|k: int| 0 <= k < name.len() ==> !"<>:\"/\\|?*\0"@.contains(#[trigger] name[k]),
        utf16_lossy(before_nul(records[i].name@)) == seq![':'] + name + ":$DATA"@,
        records[i].size >= 0,
    ensures
        all_listed(records).contains((name, records[i].size as int)),
{
    assert(reports(records[i], name));
    assert(reports_a_stream(records[i]));
    law_every_reported_stream_is_listed(records);
    lemma_one_report(records[i]);
    let at = stream_count(records.take(i)) as int;
    assert(envelope(all_listed(records)[at].0) == envelope(name));
    law_envelope_keeps_the_name(all_listed(records)[at].0, name);
    assert(all_listed(records)[at] == (name, records[i].size as int));
}

/// What a list of streams holds.
pub open spec fn streams_model(list: Seq<(AdsName, u64)>) -> Seq<(Seq<char>, int)> {
    list.map_values(|e: (AdsName, u64)| (e.0@, e.1 as int))
}

/// The attributes are known and mark a reparse point.
pub open spec fn marks_reparse_host(attributes: Option<u32>) -> bool {
    attributes matches Some(bits) && bits & FILE_ATTRIBUTE_REPARSE_POINT != 0
}

/// Tells whether the streams of a file are left alone because the file is a reparse point.
pub fn is_reparse_host(attributes: Option<u32>) -> (r: bool)
    ensures
        r == marks_reparse_host(attributes),
{
    match attributes {
        Some(bits) => bits & FILE_ATTRIBUTE_REPARSE_POINT != 0,
        None => false,
    }
}

/// The mark is the bit of value 1024, and attributes that are not known have none. The end of the list
/// is told by the answer 38.
pub proof fn law_reparse_hosts_are_marked_by_one_bit(bits: u32)
    ensures
        !marks_reparse_host(None),
        marks_reparse_host(Some(bits)) <==> (bits / 1024) % 2 == 1,
        ERROR_HANDLE_EOF == 38,
{
    assert((bits & 0x400u32 != 0) <==> (bits / 1024) % 2 == 1) by (bit_vector);
}

/// The named data streams of a file, from its attributes, the streams that the system reported
/// one after the other, and the error with which it refused to report another.
///
/// A reparse point has none. If the last error is anything but the end of the list, it is handed
/// back.
pub fn enumerate(
    attributes: Option<u32>,
    records: &Vec<StreamRecord>,
    end: Option<i32>,
) -> (r: Result<Vec<(AdsName, u64)>, Option<i32>>)
    ensures
        marks_reparse_host(attributes) ==> (r matches Ok(list) && list@.len() == 0),
        !marks_reparse_host(attributes) && end == Some(ERROR_HANDLE_EOF) ==> (r matches Ok(list)
            && streams_model(list@) == all_listed(records@)),
        !marks_reparse_host(attributes) && end != Some(ERROR_HANDLE_EOF) ==> r == Err::<
            Vec<(AdsName, u64)>,
            Option<i32>,
        >(end),
{
    if is_reparse_host(attributes) {
        return Ok(Vec::new());
    }
    match end {
        Some(code) => {
            if code != ERROR_HANDLE_EOF {
                return Err(end);
            }
        },
        None => {
            return Err(end);
        },
    }
    let mut out: Vec<(AdsName, u64)> = Vec::new();
    let mut i: usize = 0;
    assert(streams_model(out@) =~= all_listed(records@.take(0)));
    while i < records.len()
        invariant
            i <= records@.len(),
            streams_model(out@) == all_listed(records@.take(i as int)),
        decreases records.len() - i,
    {
        let ghost record = records@[i as int];
        let ghost before = out@;
        proof {
            assert(records@.take(i + 1).drop_last() =~= records@.take(i as int));
        }
        let raw: String = read_stream_name(&records[i].name);
        match canonical_stream_name(raw.as_str()) {
            Some(name) => {
                proof {
                    reveal_strlit(":$DATA");
                    assert(raw@.subrange(1, raw@.len() - 6) =~= name@);
                }
                let size: u64 = if records[i].size > 0 {
                    records[i].size as u64
                } else {
                    0
                };
                if let Ok(ads) = AdsName::new(name) {
                    out.push((ads, size));
                    assert(streams_model(out@) =~= streams_model(before) + listed(record));
                }
            },
            None => {
                proof {
                    if raw@.len() > 7 {
                        let name = raw@.subrange(1, raw@.len() - 6);
                        assert(name.len() > 0);
                        assert(raw@ != envelope(name));
                    }
                }
            },
        }
        assert(streams_model(out@) =~= all_listed(records@.take(i + 1)));
        i = i + 1;
    }
    assert(records@.take(i as int) =~= records@);
    Ok(out)
}

/// The model of a list of streams has each stream in its place, under its name and with its size.
pub proof fn law_stream_model_is_the_list(list: Seq<(AdsName, u64)>)
    ensures
        streams_model(list).len() == list.len(),
        forall|i: int|
            0 <= i < list.len() ==> streams_model(list)[i].0 == (#[trigger] list[i]).0@
                && streams_model(list)[i].1 == list[i].1,
{
}

} // verus!
