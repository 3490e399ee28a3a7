//! Sparse files: which ranges of a file are allocated, and which holes lie between them.
//!
//! A range is a pair of offset and length. A hole is a pair of the first offset and the offset
//! behind the last one.

use vstd::prelude::*;

use crate::generic_attributes::extents_model;
use crate::sort::{is_sorted, is_stable_sort, law_sort_permutes, stable_sort, Ranked};

verus! {

/// The attribute bit that marks a sparse file.
pub const FILE_ATTRIBUTE_SPARSE_FILE: u32 = 0x0000_0200;

/// The system's answer when a list of ranges goes on behind what fitted the buffer.
pub const ERROR_MORE_DATA: u32 = 234;

/// The size of one range in the system's buffer.
pub const RANGE_RECORD_SIZE: u32 = 16;

/// Tells from its attributes whether a file is sparse.
pub fn is_sparse_file(attributes: u32) -> (r: bool)
    ensures
        r == (attributes & FILE_ATTRIBUTE_SPARSE_FILE != 0),
{
    attributes & FILE_ATTRIBUTE_SPARSE_FILE != 0
}

/// The mark of a sparse file is the bit of value 512.
pub proof fn law_sparse_files_are_marked_by_one_bit(bits: u32)
    ensures
        bits & FILE_ATTRIBUTE_SPARSE_FILE != 0 <==> (bits / 512) % 2 == 1,
{
    assert((bits & 0x200u32 != 0) <==> (bits / 512) % 2 == 1) by (bit_vector);
}

/// Ranges compare by offset alone.
impl Ranked for (i64, i64) {
    open spec fn at_most(self, other: (i64, i64)) -> bool {
        self.0 <= other.0
    }

    proof fn total(a: (i64, i64), b: (i64, i64)) {
    }

    proof fn transitive(a: (i64, i64), b: (i64, i64), c: (i64, i64)) {
    }

    fn is_at_most(&self, other: &(i64, i64)) -> (r: bool) {
        self.0 <= other.0
    }
}

/// Pairs of numbers as mathematical ones.
pub open spec fn ints(s: Seq<(i64, i64)>) -> Seq<(int, int)> {
    s.map_values(|e: (i64, i64)| (e.0 as int, e.1 as int))
}

/// The byte at `x` lies in one of the ranges.
pub open spec fn covered(ranges: Seq<(int, int)>, x: int) -> bool {
    exists|i: int|
        0 <= i < ranges.len() && (#[trigger] ranges[i]).0 <= x < ranges[i].0 + ranges[i].1
}

/// The byte at `x` lies in one of the holes.
pub open spec fn in_hole(holes: Seq<(int, int)>, x: int) -> bool {
    exists|i: int| 0 <= i < holes.len() && (#[trigger] holes[i]).0 <= x < holes[i].1
}

/// Ranges of one offset tie, whatever their lengths, and others are in the order of their offsets.
pub proof fn law_ranges_are_ranked_by_offset_alone(offsets: (i64, i64), lengths: (i64, i64))
    ensures
        (offsets.0, lengths.0).at_most((offsets.1, lengths.1)) <==> offsets.0 <= offsets.1,
{
}

/// A range covers the bytes from its offset on, as many as it is long, and a hole those from its first
/// one up to the one before its end. Several cover what any of them covers.
pub proof fn law_coverage_is_byte_by_byte(
    a: Seq<(int, int)>,
    b: Seq<(int, int)>,
    one: (int, int),
    x: int,
)
    ensures
        covered(seq![one], x) <==> 0 <= x - one.0 < one.1,
        in_hole(seq![one], x) <==> one.0 <= x && x < one.1,
        !covered(Seq::empty(), x),
        !in_hole(Seq::empty(), x),
        covered(a + b, x) <==> covered(a, x) || covered(b, x),
        in_hole(a + b, x) <==> in_hole(a, x) || in_hole(b, x),
{
    lemma_in_hole_add(a, b, x);
    let single = seq![one];
    assert(single[0] == one);
    let both = a + b;
    if covered(a, x) {
        let i = choose|i: int| 0 <= i < a.len() && (#[trigger] a[i]).0 <= x < a[i].0 + a[i].1;
        assert(both[i] == a[i]);
    }
    if covered(b, x) {
        let i = choose|i: int| 0 <= i < b.len() && (#[trigger] b[i]).0 <= x < b[i].0 + b[i].1;
        assert(both[a.len() + i] == b[i]);
    }
    if covered(both, x) {
        let i = choose|i: int|
            0 <= i < both.len() && (#[trigger] both[i]).0 <= x < both[i].0 + both[i].1;
        if i < a.len() {
            assert(both[i] == a[i]);
        } else {
            assert(both[i] == b[i - a.len()]);
        }
    }
}

/// The number fits the system's offsets.
pub open spec fn is_offset(x: int) -> bool {
    i64::MIN <= x <= i64::MAX
}

/// The ranges in order of offset.
pub open spec fn ascending(ranges: Seq<(int, int)>) -> bool {
    forall|i: int, j: int|
        0 <= i < j < ranges.len() ==> (#[trigger] ranges[i]).0 <= (#[trigger] ranges[j]).0
}

/// Ranges with each one joined to the one before it if it starts where that one ends.
pub open spec fn coalesced(ranges: Seq<(int, int)>) -> Seq<(int, int)>
    decreases ranges.len(),
{
    if ranges.len() == 0 {
        Seq::empty()
    } else {
        let front = coalesced(ranges.drop_last());
        let (offset, length) = ranges.last();
        if front.len() > 0 && front.last().0 + front.last().1 == offset {
            front.drop_last().push((front.last().0, front.last().1 + length))
        } else {
            front.push((offset, length))
        }
    }
}

/// The sum of the lengths.
pub open spec fn total_length(ranges: Seq<(int, int)>) -> int
    decreases ranges.len(),
{
    if ranges.len() == 0 {
        0
    } else {
        total_length(ranges.drop_last()) + ranges.last().1
    }
}

proof fn lemma_coalesced_last(ranges: Seq<(int, int)>)
    requires
        ranges.len() > 0,
    ensures
        0 < coalesced(ranges).len() <= ranges.len(),
        coalesced(ranges).last().0 + coalesced(ranges).last().1 == ranges.last().0
            + ranges.last().1,
        exists|i: int|
            0 <= i < ranges.len() && coalesced(ranges).last().0 == (#[trigger] ranges[i]).0,
    decreases ranges.len(),
{
    let short = ranges.drop_last();
    if short.len() > 0 {
        lemma_coalesced_last(short);
        let i = choose|i: int|
            0 <= i < short.len() && coalesced(short).last().0 == (#[trigger] short[i]).0;
        assert(ranges[i] == short[i]);
    } else {
        assert(coalesced(short) =~= Seq::<(int, int)>::empty());
    }
    assert(ranges[ranges.len() - 1] == ranges.last());
}

/// Joining ranges neither covers a byte more nor a byte less.
pub proof fn law_coalescing_keeps_coverage(ranges: Seq<(int, int)>, x: int)
    requires
        forall|i: int| 0 <= i < ranges.len() ==> (#[trigger] ranges[i]).1 >= 0,
    ensures
        covered(coalesced(ranges), x) <==> covered(ranges, x),
        forall|i: int|
            0 <= i < coalesced(ranges).len() ==> (#[trigger] coalesced(ranges)[i]).1 >= 0,
    decreases ranges.len(),
{
    if ranges.len() > 0 {
        let short = ranges.drop_last();
        assert forall|i: int| 0 <= i < short.len() implies (#[trigger] short[i]).1 >= 0 by {
            assert(short[i] == ranges[i]);
        }
        law_coalescing_keeps_coverage(short, x);
        let (front, whole, last) = (coalesced(short), coalesced(ranges), ranges.last());
        assert(ranges[ranges.len() - 1] == last);
        // The last range and what stands before it.
        assert(covered(ranges, x) <==> covered(short, x) || last.0 <= x < last.0 + last.1) by {
            if covered(short, x) {
                let i = choose|i: int|
                    0 <= i < short.len() && (#[trigger] short[i]).0 <= x < short[i].0 + short[i].1;
                assert(ranges[i] == short[i]);
            }
            if covered(ranges, x) {
                let i = choose|i: int|
                    0 <= i < ranges.len() && (#[trigger] ranges[i]).0 <= x < ranges[i].0
                        + ranges[i].1;
                if i < short.len() {
                    assert(ranges[i] == short[i]);
                }
            }
        }
        assert(covered(whole, x) <==> covered(front, x) || last.0 <= x < last.0 + last.1) by {
            let n = front.len() as int;
            if n > 0 {
                assert(front[n - 1] == front.last());
            }
            if covered(front, x) {
                let i = choose|i: int|
                    0 <= i < front.len() && (#[trigger] front[i]).0 <= x < front[i].0 + front[i].1;
                if i < whole.len() {
                    assert(whole[i].0 == front[i].0);
                    assert(whole[i].1 >= front[i].1);
                }
            }
            if last.0 <= x < last.0 + last.1 {
                let k = whole.len() - 1;
                assert(whole[k].0 <= x < whole[k].0 + whole[k].1);
            }
            if covered(whole, x) {
                let i = choose|i: int|
                    0 <= i < whole.len() && (#[trigger] whole[i]).0 <= x < whole[i].0 + whole[i].1;
                if i < n - 1 {
                    assert(whole[i] == front[i]);
                } else if i == n - 1 {
                    assert(front[i].0 == whole[i].0);
                }
            }
        }
        assert forall|i: int| 0 <= i < whole.len() implies (#[trigger] whole[i]).1 >= 0 by {
            if i < front.len() {
                assert(front[i].1 >= 0);
            }
        }
    }
}

/// Joining ranges keeps the sum of their lengths, leaves no range that starts where the one
/// before it ends, and keeps them in order.
pub proof fn law_coalescing_is_complete(ranges: Seq<(int, int)>)
    requires
        ascending(ranges),
    ensures
        total_length(coalesced(ranges)) == total_length(ranges),
        ascending(coalesced(ranges)),
        forall|i: int, j: int|
            0 <= i && j == i + 1 && j < coalesced(ranges).len() ==> (#[trigger] coalesced(
                ranges,
            )[i]).0 + coalesced(ranges)[i].1 != (#[trigger] coalesced(ranges)[j]).0,
    decreases ranges.len(),
{
    if ranges.len() > 0 {
        let short = ranges.drop_last();
        assert(ascending(short)) by {
            assert forall|i: int, j: int| 0 <= i < j < short.len() implies (#[trigger] short[i]).0
                <= (#[trigger] short[j]).0 by {
                assert(ranges[i] == short[i] && ranges[j] == short[j]);
            }
        }
        law_coalescing_is_complete(short);
        let (front, whole, last) = (coalesced(short), coalesced(ranges), ranges.last());
        let n = front.len() as int;
        if n > 0 && front.last().0 + front.last().1 == last.0 {
            assert(whole.drop_last() =~= front.drop_last());
        } else {
            assert(whole.drop_last() =~= front);
        }
        if short.len() > 0 {
            lemma_coalesced_last(short);
            let i = choose|i: int|
                0 <= i < short.len() && front.last().0 == (#[trigger] short[i]).0;
            assert(ranges[i] == short[i]);
            assert(ranges[i].0 <= ranges[ranges.len() - 1].0);
        }
        assert forall|i: int, j: int| 0 <= i < j < whole.len() implies (#[trigger] whole[i]).0
            <= (#[trigger] whole[j]).0 by {
            if j < n {
                assert(whole[i].0 == front[i].0 && whole[j].0 == front[j].0);
            } else {
                assert(whole[i] == front[i]);
                if i < n - 1 {
                    assert(front[i].0 <= front[n - 1].0);
                }
            }
        }
        assert forall|i: int, j: int| 0 <= i && j == i + 1 && j < whole.len() implies (
        #[trigger] whole[i]).0 + whole[i].1 != (#[trigger] whole[j]).0 by {
            if j < n {
                assert(whole[i] == front[i] && whole[j].0 == front[j].0);
            } else {
                assert(whole[i] == front.last());
            }
        }
    }
}

/// The range lies within one of the others.
pub open spec fn lies_within(range: (int, int), others: Seq<(int, int)>) -> bool {
    exists|k: int|
        0 <= k < others.len() && (#[trigger] others[k]).0 <= range.0 && range.0 + range.1
            <= others[k].0 + others[k].1
}

/// Some range starts at `x`.
pub open spec fn starts_at(ranges: Seq<(int, int)>, x: int) -> bool {
    exists|i: int| 0 <= i < ranges.len() && (#[trigger] ranges[i]).0 == x
}

/// Some range ends at `x`.
pub open spec fn ends_at(ranges: Seq<(int, int)>, x: int) -> bool {
    exists|i: int| 0 <= i < ranges.len() && (#[trigger] ranges[i]).0 + ranges[i].1 == x
}

/// Every range, also an empty one, lies within one of the joined ranges, and every joined range starts
/// where some range starts and ends where some range ends.
pub proof fn law_coalescing_keeps_every_range(ranges: Seq<(int, int)>, i: int, k: int)
    requires
        forall|n: int| 0 <= n < ranges.len() ==> (#[trigger] ranges[n]).1 >= 0,
    ensures
        0 <= i < ranges.len() ==> lies_within(ranges[i], coalesced(ranges)),
        0 <= k < coalesced(ranges).len() ==> starts_at(ranges, coalesced(ranges)[k].0),
        0 <= k < coalesced(ranges).len() ==> ends_at(
            ranges,
            coalesced(ranges)[k].0 + coalesced(ranges)[k].1,
        ),
    decreases ranges.len(),
{
    if ranges.len() > 0 {
        let short = ranges.drop_last();
        assert forall|n: int| 0 <= n < short.len() implies (#[trigger] short[n]).1 >= 0 by {
            assert(short[n] == ranges[n]);
        }
        law_coalescing_keeps_every_range(short, i, k);
        law_coalescing_keeps_coverage(short, 0);
        let (front, whole, last) = (coalesced(short), coalesced(ranges), ranges.last());
        let (n, at) = (front.len() as int, ranges.len() - 1);
        assert(ranges[at] == last);
        if n > 0 {
            assert(front[n - 1].1 >= 0);
        }
        if 0 <= i < at {
            assert(short[i] == ranges[i]);
            let m = choose|m: int|
                0 <= m < front.len() && (#[trigger] front[m]).0 <= short[i].0 && short[i].0
                    + short[i].1 <= front[m].0 + front[m].1;
            assert(whole[m].0 == front[m].0 && whole[m].1 >= front[m].1);
        } else if i == at {
            let m = whole.len() - 1;
            assert(whole[m].0 <= last.0 && last.0 + last.1 <= whole[m].0 + whole[m].1);
        }
        if 0 <= k < whole.len() {
            if k < n {
                lemma_ends_of_more(short, ranges, front[k].0);
                lemma_ends_of_more(short, ranges, front[k].0 + front[k].1);
                assert(whole[k].0 == front[k].0);
                if whole[k] != front[k] {
                    assert(ranges[at].0 + ranges[at].1 == whole[k].0 + whole[k].1);
                }
            } else {
                assert(whole[k] == last);
            }
        }
    }
}

proof fn lemma_ends_of_more(short: Seq<(int, int)>, ranges: Seq<(int, int)>, x: int)
    requires
        ranges.len() > 0,
        short == ranges.drop_last(),
    ensures
        starts_at(short, x) ==> starts_at(ranges, x),
        ends_at(short, x) ==> ends_at(ranges, x),
{
    if starts_at(short, x) {
        let i = choose|i: int| 0 <= i < short.len() && (#[trigger] short[i]).0 == x;
        assert(ranges[i] == short[i]);
    }
    if ends_at(short, x) {
        let i = choose|i: int| 0 <= i < short.len() && (#[trigger] short[i]).0 + short[i].1 == x;
        assert(ranges[i] == short[i]);
    }
}

/// A scan for the allocated ranges of a file, which asks the system as long as there is more.
#[derive(Debug)]
pub struct RangeScan {
    file_size: i64,
    next_offset: i64,
    done: bool,
    ranges: Vec<(i64, i64)>,
}

/// How far a scan has come.
pub struct ScanModel {
    /// The size of the file.
    pub file_size: int,
    /// Where the next question starts.
    pub next_offset: int,
    /// The system has told all.
    pub done: bool,
    /// The ranges that it has told.
    pub ranges: Seq<(int, int)>,
}

impl View for RangeScan {
    type V = ScanModel;

    closed spec fn view(&self) -> ScanModel {
        ScanModel {
            file_size: self.file_size as int,
            next_offset: self.next_offset as int,
            done: self.done,
            ranges: ints(self.ranges@),
        }
    }
}

/// One answer of the system to the question for the ranges of a file.
#[derive(Debug)]
pub struct RangeReply {
    /// The call went through.
    pub ok: bool,
    /// The system's error where it did not.
    pub last_error: u32,
    /// The buffer that the system filled.
    pub records: Vec<(i64, i64)>,
    /// How many bytes of it the system filled.
    pub bytes_returned: u32,
}

impl RangeReply {
    /// The number of ranges in the answer.
    pub open spec fn count(&self) -> int {
        self.bytes_returned as int / RANGE_RECORD_SIZE as int
    }

    /// The ranges in the answer.
    pub open spec fn told(&self) -> Seq<(int, int)> {
        ints(self.records@).take(self.count())
    }

    /// The call went through, or the system has more to tell than the buffer holds.
    pub open spec fn usable(&self) -> bool {
        self.ok || self.last_error == ERROR_MORE_DATA
    }

    /// The buffer holds as many ranges as it is said to, and the last of them ends at an offset.
    pub open spec fn well_formed(&self) -> bool {
        &&& self.count() <= self.records@.len()
        &&& self.count() > 0 ==> is_offset(self.told().last().0 + self.told().last().1)
    }
}

/// Where a scan asks next: offset and length.
pub open spec fn next_question(scan: ScanModel) -> Option<(int, int)> {
    if scan.done || scan.next_offset >= scan.file_size {
        None
    } else {
        Some((scan.next_offset, scan.file_size - scan.next_offset))
    }
}

/// The scan after a usable answer: it goes on behind the last range told, unless the answer was
/// complete or told none.
pub open spec fn after_reply(scan: ScanModel, reply: RangeReply) -> ScanModel {
    ScanModel {
        file_size: scan.file_size,
        next_offset: if reply.count() > 0 {
            reply.told().last().0 + reply.told().last().1
        } else {
            scan.next_offset
        },
        done: reply.ok || reply.count() == 0,
        ranges: scan.ranges + reply.told(),
    }
}

/// The scan after a list of answers.
pub open spec fn after_replies(scan: ScanModel, replies: Seq<RangeReply>) -> ScanModel
    decreases replies.len(),
{
    if replies.len() == 0 {
        scan
    } else {
        after_reply(after_replies(scan, replies.drop_last()), replies.last())
    }
}

/// The ranges of a list of answers, in the order in which they were told.
pub open spec fn all_told(replies: Seq<RangeReply>) -> Seq<(int, int)>
    decreases replies.len(),
{
    if replies.len() == 0 {
        Seq::empty()
    } else {
        all_told(replies.drop_last()) + replies.last().told()
    }
}

/// A scan keeps every range that it was told, once each and in that order, and it keeps the size
/// that it started with.
pub proof fn law_scan_keeps_what_it_was_told(scan: ScanModel, replies: Seq<RangeReply>)
    ensures
        after_replies(scan, replies).ranges == scan.ranges + all_told(replies),
        after_replies(scan, replies).file_size == scan.file_size,
    decreases replies.len(),
{
    if replies.len() > 0 {
        law_scan_keeps_what_it_was_told(scan, replies.drop_last());
    }
    assert(after_replies(scan, replies).ranges =~= scan.ranges + all_told(replies));
}

/// Each usable answer either ends the scan or leaves it to ask behind the last range told.
pub proof fn law_scan_advances(scan: ScanModel, reply: RangeReply)
    requires
        reply.usable(),
        reply.well_formed(),
    ensures
        next_question(after_reply(scan, reply)) matches Some((offset, length)) ==> {
            &&& !reply.ok
            &&& reply.count() > 0
            &&& offset == reply.told().last().0 + reply.told().last().1
            &&& offset + length == scan.file_size
        },
{
}

/// What a usable answer adds are the first of its records, one for each 16 bytes, all of them and in
/// their order. The scan ends with an answer that is complete or empty, and goes on behind the last
/// record of any other.
pub proof fn law_answers_add_one_range_for_each_16_bytes(scan: ScanModel, reply: RangeReply)
    requires
        reply.bytes_returned / 16 <= reply.records@.len(),
    ensures
        ({
            let (n, after) = (reply.bytes_returned as int / 16, after_reply(scan, reply));
            &&& after.file_size == scan.file_size
            &&& after.ranges.len() == scan.ranges.len() + n
            &&& forall|i: int|
                0 <= i < scan.ranges.len() ==> #[trigger] after.ranges[i] == scan.ranges[i]
            &&& forall|i: int|
                0 <= i < n ==> {
                    &&& after.ranges[scan.ranges.len() + i].0 == (#[trigger] reply.records@[i]).0
                    &&& after.ranges[scan.ranges.len() + i].1 == reply.records@[i].1
                }
            &&& after.done <==> reply.ok || n == 0
            &&& n == 0 ==> after.next_offset == scan.next_offset
            &&& n > 0 ==> after.next_offset == reply.records@[n - 1].0 + reply.records@[n - 1].1
        }),
        reply.usable() <==> reply.ok || reply.last_error == 234,
{
}

/// A scan asks from where it stands up to the end of the file, unless it is done or has come there.
pub proof fn law_questions_reach_to_the_end_of_the_file(scan: ScanModel)
    ensures
        next_question(scan) is None <==> scan.done || scan.next_offset >= scan.file_size,
        next_question(scan) matches Some((offset, length)) ==> offset == scan.next_offset && offset
            + length == scan.file_size && length > 0,
{
}

impl RangeScan {
    /// A scan of a file of this many bytes, the number taken as a signed one of the same bits.
    pub fn new(file_size: u64) -> (r: RangeScan)
        ensures
            r@.file_size == file_size as i64,
            file_size <= i64::MAX ==> r@.file_size == file_size,
            r@.next_offset == 0,
            !r@.done,
            r@.ranges == Seq::<(int, int)>::empty(),
    {
        let r = RangeScan {
            file_size: file_size as i64,
            next_offset: 0,
            done: false,
            ranges: Vec::new(),
        };
        assert(r@.ranges =~= Seq::<(int, int)>::empty());
        r
    }

    /// The offset and length to ask the system about, or `None` when the scan is over.
    pub fn query(&self) -> (r: Option<(i64, i64)>)
        requires
            is_offset(self@.file_size - self@.next_offset),
        ensures
            r is Some <==> next_question(self@) is Some,
            r matches Some((offset, length)) ==> next_question(self@) == Some(
                (offset as int, length as int),
            ),
    {
        if self.done || self.next_offset >= self.file_size {
            None
        } else {
            Some((self.next_offset, self.file_size - self.next_offset))
        }
    }

    /// Takes the system's answer to the question. An error other than that there is more is
    /// handed back, and the scan stays as it was.
    pub fn reply(&mut self, reply: &RangeReply) -> (r: Result<(), u32>)
        requires
            reply.well_formed(),
        ensures
            reply.usable() ==> r is Ok && final(self)@ == after_reply(old(self)@, *reply),
            !reply.usable() ==> r == Err::<(), u32>(reply.last_error) && final(self)@ == old(
                self,
            )@,
    {
        if !reply.ok && reply.last_error != ERROR_MORE_DATA {
            return Err(reply.last_error);
        }
        let n: usize = (reply.bytes_returned / RANGE_RECORD_SIZE) as usize;
        let ghost before = self.ranges@;
        let mut i: usize = 0;
        assert(before + reply.records@.take(0) =~= before);
        while i < n
            invariant
                i <= n <= reply.records@.len(),
                self.ranges@ == before + reply.records@.take(i as int),
                self.file_size == old(self).file_size,
                self.next_offset == old(self).next_offset,
            decreases n - i,
        {
            self.ranges.push(reply.records[i]);
            assert(self.ranges@ =~= before + reply.records@.take(i + 1));
            i = i + 1;
        }
        assert(ints(self.ranges@) =~= ints(before) + reply.told());
        if n > 0 {
            let (offset, length): (i64, i64) = reply.records[n - 1];
            assert(reply.told().last() == (offset as int, length as int));
            self.next_offset = offset + length;
        }
        self.done = reply.ok || n == 0;
        Ok(())
    }
}

/// Each range, and each stretch from the start of one to the end of another, has a length that
/// fits the system's offsets.
pub open spec fn lengths_fit(ranges: Seq<(int, int)>) -> bool {
    &&& forall|i: int|
        0 <= i < ranges.len() ==> is_offset((#[trigger] ranges[i]).0 + ranges[i].1)
    &&& forall|i: int, j: int|
        0 <= i < ranges.len() && 0 <= j < ranges.len() ==> is_offset(
            (#[trigger] ranges[j]).0 + ranges[j].1 - (#[trigger] ranges[i]).0,
        )
}

proof fn lemma_lengths_fit_sorted(ranges: Seq<(i64, i64)>, sorted: Seq<(i64, i64)>)
    requires
        is_stable_sort(ranges, sorted),
        lengths_fit(ints(ranges)),
    ensures
        lengths_fit(ints(sorted)),
{
    lemma_same_ranges(ranges, sorted);
    let (a, b) = (ints(ranges), ints(sorted));
    assert forall|i: int| 0 <= i < b.len() implies is_offset((#[trigger] b[i]).0 + b[i].1) by {
        assert(a[a.index_of(b[i])] == b[i]);
    }
    assert forall|i: int, j: int| 0 <= i < b.len() && 0 <= j < b.len() implies is_offset(
        (#[trigger] b[j]).0 + b[j].1 - (#[trigger] b[i]).0,
    ) by {
        assert(a[a.index_of(b[i])] == b[i]);
        assert(a[a.index_of(b[j])] == b[j]);
    }
}

proof fn lemma_sorted_ascends(sorted: Seq<(i64, i64)>)
    requires
        is_sorted(sorted),
    ensures
        ascending(ints(sorted)),
{
    assert forall|i: int, j: int| 0 <= i < j < ints(sorted).len() implies (
    #[trigger] ints(sorted)[i]).0 <= (#[trigger] ints(sorted)[j]).0 by {
        assert(sorted[i].at_most(sorted[j]));
    }
}

/// The allocated ranges that a scan has found, sorted by offset and joined where they touch.
pub fn enumerate_allocated_ranges(scan: RangeScan) -> (r: Vec<(i64, i64)>)
    requires
        lengths_fit(scan@.ranges),
    ensures
        exists|told: Seq<(i64, i64)>, sorted: Seq<(i64, i64)>|
            {
                &&& ints(told) == scan@.ranges
                &&& #[trigger] is_stable_sort(told, sorted)
                &&& ints(r@) == coalesced(ints(sorted))
            },
        ascending(ints(r@)),
{
    let ghost told = scan.ranges@;
    let sorted: Vec<(i64, i64)> = stable_sort(scan.ranges);
    proof {
        lemma_lengths_fit_sorted(told, sorted@);
    }
    let ghost all = ints(sorted@);
    let mut out: Vec<(i64, i64)> = Vec::new();
    let mut i: usize = 0;
    assert(ints(out@) =~= coalesced(all.take(0)));
    while i < sorted.len()
        invariant
            all == ints(sorted@),
            lengths_fit(all),
            i <= sorted@.len(),
            ints(out@) == coalesced(all.take(i as int)),
        decreases sorted.len() - i,
    {
        let (offset, length): (i64, i64) = sorted[i];
        let ghost before = out@;
        assert(all[i as int] == (offset as int, length as int));
        assert(all.take(i + 1).drop_last() =~= all.take(i as int));
        let n: usize = out.len();
        let mut joined: bool = false;
        if n > 0 {
            proof {
                assert(i > 0) by {
                    if i == 0 {
                        assert(coalesced(all.take(0)).len() == 0);
                    }
                }
                lemma_coalesced_last(all.take(i as int));
                let last = ints(out@).last();
                assert(last == (out@[n - 1].0 as int, out@[n - 1].1 as int));
                let k = choose|k: int|
                    0 <= k < i && last.0 == (#[trigger] all.take(i as int)[k]).0;
                assert(all.take(i as int)[k] == all[k]);
                assert(all.take(i as int).last() == all[i - 1]);
                assert(is_offset(all[i as int].0 + all[i as int].1 - all[k].0));
            }
            let (start, sofar): (i64, i64) = out[n - 1];
            if start + sofar == offset {
                out.set(n - 1, (start, sofar + length));
                joined = true;
                assert(ints(out@) =~= ints(before).drop_last().push(
                    (start as int, sofar + length),
                ));
            }
        }
        if !joined {
            out.push((offset, length));
            assert(ints(out@) =~= ints(before).push((offset as int, length as int)));
        }
        assert(ints(out@) == coalesced(all.take(i + 1)));
        i = i + 1;
    }
    proof {
        assert(all.take(i as int) =~= all);
        lemma_sorted_ascends(sorted@);
        law_coalescing_is_complete(all);
        assert(is_stable_sort(told, sorted@));
    }
    out
}

/// The first offset, 0 or above, behind the end of all the ranges.
pub open spec fn far_end(ranges: Seq<(int, int)>) -> int
    decreases ranges.len(),
{
    if ranges.len() == 0 {
        0
    } else {
        let (front, end) = (far_end(ranges.drop_last()), ranges.last().0 + ranges.last().1);
        if end > front {
            end
        } else {
            front
        }
    }
}

/// The hole from `start` up to `end`, unless it is empty.
pub open spec fn hole(start: int, end: int) -> Seq<(int, int)> {
    if start < end {
        seq![(start, end)]
    } else {
        Seq::empty()
    }
}

/// The holes in front of each of the ranges, as far as they lie below `total`.
pub open spec fn gaps(ranges: Seq<(int, int)>, total: int) -> Seq<(int, int)>
    decreases ranges.len(),
{
    if ranges.len() == 0 {
        Seq::empty()
    } else {
        let (front, offset) = (ranges.drop_last(), ranges.last().0);
        gaps(front, total) + hole(
            far_end(front),
            if offset < total {
                offset
            } else {
                total
            },
        )
    }
}

/// The holes between the ranges and behind them, up to `total`.
pub open spec fn holes(ranges: Seq<(int, int)>, total: int) -> Seq<(int, int)> {
    gaps(ranges, total) + hole(far_end(ranges), total)
}

proof fn lemma_in_hole_add(a: Seq<(int, int)>, b: Seq<(int, int)>, x: int)
    ensures
        in_hole(a + b, x) <==> in_hole(a, x) || in_hole(b, x),
{
    let both = a + b;
    if in_hole(a, x) {
        let i = choose|i: int| 0 <= i < a.len() && (#[trigger] a[i]).0 <= x < a[i].1;
        assert(both[i] == a[i]);
    }
    if in_hole(b, x) {
        let i = choose|i: int| 0 <= i < b.len() && (#[trigger] b[i]).0 <= x < b[i].1;
        assert(both[a.len() + i] == b[i]);
    }
    if in_hole(both, x) {
        let i = choose|i: int| 0 <= i < both.len() && (#[trigger] both[i]).0 <= x < both[i].1;
        if i < a.len() {
            assert(both[i] == a[i]);
        } else {
            assert(both[i] == b[i - a.len()]);
        }
    }
}

proof fn lemma_in_one_hole(start: int, end: int, x: int)
    ensures
        in_hole(hole(start, end), x) <==> start <= x < end,
{
    if start <= x < end {
        assert(hole(start, end)[0] == (start, end));
    }
}

proof fn lemma_far_end(ranges: Seq<(int, int)>)
    ensures
        far_end(ranges) >= 0,
        forall|i: int|
            0 <= i < ranges.len() ==> (#[trigger] ranges[i]).0 + ranges[i].1 <= far_end(ranges),
        far_end(ranges) == 0 || exists|i: int|
            0 <= i < ranges.len() && (#[trigger] ranges[i]).0 + ranges[i].1 == far_end(ranges),
    decreases ranges.len(),
{
    if ranges.len() > 0 {
        let front = ranges.drop_last();
        lemma_far_end(front);
        assert(ranges[ranges.len() - 1] == ranges.last());
        assert forall|i: int| 0 <= i < ranges.len() implies (#[trigger] ranges[i]).0 + ranges[i].1
            <= far_end(ranges) by {
            if i < front.len() {
                assert(front[i] == ranges[i]);
            }
        }
        if far_end(front) > 0 && far_end(ranges) == far_end(front) {
            let i = choose|i: int|
                0 <= i < front.len() && (#[trigger] front[i]).0 + front[i].1 == far_end(front);
            assert(ranges[i] == front[i]);
        }
    }
}

proof fn lemma_gaps(ranges: Seq<(int, int)>, total: int, x: int)
    requires
        ascending(ranges),
    ensures
        in_hole(gaps(ranges, total), x) <==> {
            &&& 0 <= x < total
            &&& !covered(ranges, x)
            &&& exists|i: int| 0 <= i < ranges.len() && x < (#[trigger] ranges[i]).0
        },
    decreases ranges.len(),
{
    if ranges.len() > 0 {
        let front = ranges.drop_last();
        let last = ranges.last();
        let n = ranges.len() - 1;
        assert(ranges[n] == last);
        assert(forall|i: int| 0 <= i < n ==> #[trigger] ranges[i] == front[i]);
        assert(ascending(front));
        lemma_gaps(front, total, x);
        lemma_far_end(front);
        let stop = if last.0 < total {
            last.0
        } else {
            total
        };
        lemma_in_hole_add(gaps(front, total), hole(far_end(front), stop), x);
        lemma_in_one_hole(far_end(front), stop, x);
        let ahead = exists|i: int| 0 <= i < ranges.len() && x < (#[trigger] ranges[i]).0;
        // Only the last range can start furthest out.
        assert(ahead <==> x < last.0) by {
            if ahead {
                let i = choose|i: int| 0 <= i < ranges.len() && x < (#[trigger] ranges[i]).0;
                if i < n {
                    assert(ranges[i].0 <= ranges[n].0);
                }
            }
        }
        if x < last.0 {
            assert(covered(ranges, x) <==> covered(front, x)) by {
                if covered(front, x) {
                    let i = choose|i: int|
                        0 <= i < n && (#[trigger] front[i]).0 <= x < front[i].0 + front[i].1;
                    assert(ranges[i] == front[i]);
                }
                if covered(ranges, x) {
                    let i = choose|i: int|
                        0 <= i < ranges.len() && (#[trigger] ranges[i]).0 <= x < ranges[i].0
                            + ranges[i].1;
                    assert(front[i] == ranges[i]);
                }
            }
            if far_end(front) <= x {
                assert forall|i: int| 0 <= i < n implies !((#[trigger] front[i]).0 <= x
                    < front[i].0 + front[i].1) by {}
            } else if 0 <= x && !covered(front, x) {
                // Some range ends behind `x` without covering it, so it starts behind `x`.
                let i = choose|i: int|
                    0 <= i < n && (#[trigger] front[i]).0 + front[i].1 == far_end(front);
                assert(!(front[i].0 <= x < front[i].0 + front[i].1));
                assert(x < front[i].0);
            }
        } else {
            assert forall|i: int| 0 <= i < n implies (#[trigger] front[i]).0 <= x by {
                assert(ranges[i].0 <= ranges[n].0);
            }
        }
    }
}

/// The holes are the complement of the ranges: a byte lies in a hole exactly if it lies below
/// `total` and in none of the ranges.
pub proof fn law_holes_are_the_complement(ranges: Seq<(int, int)>, total: int, x: int)
    requires
        ascending(ranges),
    ensures
        in_hole(holes(ranges, total), x) <==> 0 <= x < total && !covered(ranges, x),
{
    lemma_gaps(ranges, total, x);
    lemma_far_end(ranges);
    lemma_in_hole_add(gaps(ranges, total), hole(far_end(ranges), total), x);
    lemma_in_one_hole(far_end(ranges), total, x);
    if 0 <= x < far_end(ranges) && !covered(ranges, x) {
        let i = choose|i: int|
            0 <= i < ranges.len() && (#[trigger] ranges[i]).0 + ranges[i].1 == far_end(ranges);
        assert(!(ranges[i].0 <= x < ranges[i].0 + ranges[i].1));
        assert(x < ranges[i].0);
    }
    if far_end(ranges) <= x {
        assert forall|i: int| 0 <= i < ranges.len() implies !((#[trigger] ranges[i]).0 <= x
            < ranges[i].0 + ranges[i].1) by {}
    }
}

/// No hole reaches into a range: each range starts behind the hole or ends before it. And no byte of
/// the file is forgotten: it lies in some range or between the ends of some hole.
pub proof fn law_holes_and_ranges_tile_the_file(
    ranges: Seq<(int, int)>,
    total: int,
    i: int,
    j: int,
    x: int,
)
    requires
        ascending(ranges),
        forall|n: int| 0 <= n < ranges.len() ==> (#[trigger] ranges[n]).1 >= 0,
    ensures
        0 <= i < ranges.len() && ranges[i].1 > 0 && 0 <= j < holes(ranges, total).len() ==> {
            let (range, gap) = (ranges[i], holes(ranges, total)[j]);
            gap.1 <= range.0 || range.0 + range.1 <= gap.0
        },
        0 <= x < total ==> {
            ||| exists|n: int|
                0 <= n < ranges.len() && (#[trigger] ranges[n]).0 <= x < ranges[n].0 + ranges[n].1
            ||| exists|n: int|
                0 <= n < holes(ranges, total).len() && (#[trigger] holes(ranges, total)[n]).0 <= x
                    < holes(ranges, total)[n].1
        },
{
    let all = holes(ranges, total);
    law_holes_are_the_complement(ranges, total, x);
    law_holes_are_in_order(ranges, total);
    if 0 <= i < ranges.len() && ranges[i].1 > 0 && 0 <= j < all.len() {
        let (range, gap) = (ranges[i], all[j]);
        if gap.1 > range.0 && range.0 + range.1 > gap.0 {
            let shared = if gap.0 > range.0 {
                gap.0
            } else {
                range.0
            };
            assert(all[j].0 <= shared < all[j].1);
            assert(in_hole(all, shared));
            assert(ranges[i].0 <= shared < ranges[i].0 + ranges[i].1);
            assert(covered(ranges, shared));
            law_holes_are_the_complement(ranges, total, shared);
        }
    }
}

/// What is punched into a restored file are exactly the bytes that no allocated range of the
/// source covered, whether or not the ranges were joined in between.
pub proof fn law_restored_holes_are_the_unallocated_bytes(
    ranges: Seq<(int, int)>,
    total: int,
    x: int,
)
    requires
        ascending(ranges),
        forall|i: int| 0 <= i < ranges.len() ==> (#[trigger] ranges[i]).1 >= 0,
    ensures
        in_hole(holes(coalesced(ranges), total), x) <==> 0 <= x < total && !covered(ranges, x),
{
    law_coalescing_keeps_coverage(ranges, x);
    law_coalescing_is_complete(ranges);
    law_holes_are_the_complement(coalesced(ranges), total, x);
}

/// Every hole has a byte in it, lies within the file, and ends before the next one starts.
pub proof fn law_holes_are_in_order(ranges: Seq<(int, int)>, total: int)
    requires
        forall|i: int| 0 <= i < ranges.len() ==> (#[trigger] ranges[i]).1 >= 0,
    ensures
        forall|i: int|
            0 <= i < holes(ranges, total).len() ==> 0 <= (#[trigger] holes(ranges, total)[i]).0
                < holes(ranges, total)[i].1 <= total,
        forall|i: int, j: int|
            0 <= i < j < holes(ranges, total).len() ==> (#[trigger] holes(ranges, total)[i]).1 <= (
            #[trigger] holes(ranges, total)[j]).0,
{
    lemma_far_end(ranges);
    lemma_gaps_in_order(ranges, total);
}

/// Where no range is empty, no two holes touch: each hole is as long as it can be.
pub proof fn law_holes_are_as_long_as_they_can_be(ranges: Seq<(int, int)>, total: int)
    requires
        ascending(ranges),
        forall|i: int| 0 <= i < ranges.len() ==> (#[trigger] ranges[i]).1 > 0,
    ensures
        forall|i: int, j: int|
            0 <= i < j < holes(ranges, total).len() ==> (#[trigger] holes(ranges, total)[i]).1 < (
            #[trigger] holes(ranges, total)[j]).0,
{
    let all = holes(ranges, total);
    law_holes_are_in_order(ranges, total);
    assert forall|i: int, j: int| 0 <= i < j < all.len() implies (#[trigger] all[i]).1 < (
    #[trigger] all[j]).0 by {
        // The byte behind a hole lies in no hole, or the hole would start at a range.
        if all[i].1 == all[j].0 {
            let x = all[i].1;
            assert(in_hole(all, x));
            lemma_hole_ends(ranges, total, i);
            law_holes_are_the_complement(ranges, total, x);
        }
    }
}

/// A hole ends at the end of the file or where a range starts.
proof fn lemma_hole_ends(ranges: Seq<(int, int)>, total: int, i: int)
    requires
        0 <= i < holes(ranges, total).len(),
        forall|k: int| 0 <= k < ranges.len() ==> (#[trigger] ranges[k]).1 > 0,
    ensures
        holes(ranges, total)[i].1 == total || covered(ranges, holes(ranges, total)[i].1),
{
    if i < gaps(ranges, total).len() {
        lemma_gap_ends(ranges, total, i);
    }
}

proof fn lemma_gap_ends(ranges: Seq<(int, int)>, total: int, i: int)
    requires
        0 <= i < gaps(ranges, total).len(),
        forall|k: int| 0 <= k < ranges.len() ==> (#[trigger] ranges[k]).1 > 0,
    ensures
        gaps(ranges, total)[i].1 == total || covered(ranges, gaps(ranges, total)[i].1),
    decreases ranges.len(),
{
    let front = ranges.drop_last();
    let before = gaps(front, total);
    if i < before.len() {
        assert forall|k: int| 0 <= k < front.len() implies (#[trigger] front[k]).1 > 0 by {
            assert(front[k] == ranges[k]);
        }
        lemma_gap_ends(front, total, i);
        let x = before[i].1;
        if covered(front, x) {
            let k = choose|k: int|
                0 <= k < front.len() && (#[trigger] front[k]).0 <= x < front[k].0 + front[k].1;
            assert(ranges[k] == front[k]);
        }
    } else {
        let k = ranges.len() - 1;
        assert(ranges[k].1 > 0);
    }
}

proof fn lemma_gaps_in_order(ranges: Seq<(int, int)>, total: int)
    requires
        forall|i: int| 0 <= i < ranges.len() ==> (#[trigger] ranges[i]).1 >= 0,
    ensures
        forall|i: int|
            0 <= i < gaps(ranges, total).len() ==> 0 <= (#[trigger] gaps(ranges, total)[i]).0
                < gaps(ranges, total)[i].1 <= total,
        forall|i: int|
            0 <= i < gaps(ranges, total).len() ==> (#[trigger] gaps(ranges, total)[i]).1
                <= far_end(ranges),
        forall|i: int, j: int|
            0 <= i < j < gaps(ranges, total).len() ==> (#[trigger] gaps(ranges, total)[i]).1 <= (
            #[trigger] gaps(ranges, total)[j]).0,
    decreases ranges.len(),
{
    if ranges.len() > 0 {
        let front = ranges.drop_last();
        assert forall|i: int| 0 <= i < front.len() implies (#[trigger] front[i]).1 >= 0 by {
            assert(front[i] == ranges[i]);
        }
        lemma_gaps_in_order(front, total);
        lemma_far_end(front);
        assert(ranges[ranges.len() - 1] == ranges.last());
        let (before, after) = (gaps(front, total), gaps(ranges, total));
        assert(forall|i: int| 0 <= i < before.len() ==> #[trigger] after[i] == before[i]);
    }
}

/// The hole to punch from `start` up to `end`, or nothing where that is empty.
pub fn punch_hole(start: i64, end: i64) -> (r: Option<(i64, i64)>)
    ensures
        r == (if start < end {
            Some((start, end))
        } else {
            None
        }),
{
    if end <= start {
        None
    } else {
        Some((start, end))
    }
}

/// The holes to punch into a file of `total_size` bytes whose allocated ranges, given as offset
/// and length in any order, are `allocated_extents`.
pub fn apply_sparseness(allocated_extents: &[[i64; 2]], total_size: u64) -> (r: Vec<(i64, i64)>)
    requires
        total_size <= i64::MAX,
        forall|i: int|
            0 <= i < extents_model(allocated_extents@).len() ==> is_offset(
                (#[trigger] extents_model(allocated_extents@)[i]).0 + extents_model(
                    allocated_extents@,
                )[i].1,
            ),
    ensures
        exists|given: Seq<(i64, i64)>, sorted: Seq<(i64, i64)>|
            {
                &&& ints(given) == extents_model(allocated_extents@)
                &&& #[trigger] is_stable_sort(given, sorted)
                &&& ints(r@) == holes(ints(sorted), total_size as int)
            },
        forall|x: int| #[trigger]
            in_hole(ints(r@), x) <==> 0 <= x < total_size && !covered(
                extents_model(allocated_extents@),
                x,
            ),
{
    let total: i64 = total_size as i64;
    let mut copy: Vec<(i64, i64)> = Vec::new();
    let mut i: usize = 0;
    while i < allocated_extents.len()
        invariant
            i <= allocated_extents@.len(),
            ints(copy@) == extents_model(allocated_extents@.take(i as int)),
        decreases allocated_extents.len() - i,
    {
        let e: [i64; 2] = allocated_extents[i];
        let ghost before = copy@;
        copy.push((e[0], e[1]));
        assert(ints(copy@) =~= ints(before).push((e[0] as int, e[1] as int)));
        assert(extents_model(allocated_extents@.take(i + 1)) =~= extents_model(
            allocated_extents@.take(i as int),
        ).push((e[0] as int, e[1] as int)));
        i = i + 1;
    }
    assert(allocated_extents@.take(i as int) =~= allocated_extents@);
    let ghost given = copy@;
    let sorted: Vec<(i64, i64)> = stable_sort(copy);
    let ghost all = ints(sorted@);
    proof {
        lemma_same_ranges(given, sorted@);
    }
    let mut cursor: i64 = 0;
    let mut out: Vec<(i64, i64)> = Vec::new();
    let mut k: usize = 0;
    while k < sorted.len()
        invariant
            all == ints(sorted@),
            total == total_size,
            forall|j: int| 0 <= j < all.len() ==> is_offset((#[trigger] all[j]).0 + all[j].1),
            k <= sorted@.len(),
            cursor == far_end(all.take(k as int)),
            ints(out@) == gaps(all.take(k as int), total as int),
        decreases sorted.len() - k,
    {
        let (offset, length): (i64, i64) = sorted[k];
        let ghost before = out@;
        assert(all[k as int] == (offset as int, length as int));
        assert(all.take(k + 1).drop_last() =~= all.take(k as int));
        if offset > cursor {
            let end: i64 = if offset < total {
                offset
            } else {
                total
            };
            if let Some(gap) = punch_hole(cursor, end) {
                out.push(gap);
            }
        }
        assert(ints(out@) =~= gaps(all.take(k + 1), total as int));
        if offset + length > cursor {
            cursor = offset + length;
        }
        k = k + 1;
    }
    assert(all.take(k as int) =~= all);
    let ghost before = out@;
    if cursor < total {
        if let Some(gap) = punch_hole(cursor, total) {
            out.push(gap);
        }
    }
    assert(ints(out@) =~= holes(all, total as int));
    proof {
        assert(is_stable_sort(given, sorted@));
        lemma_sorted_ascends(sorted@);
        assert forall|x: int| #[trigger]
            in_hole(ints(out@), x) <==> 0 <= x < total_size && !covered(
                extents_model(allocated_extents@),
                x,
            ) by {
            law_holes_are_the_complement(all, total as int, x);
            lemma_same_coverage(given, sorted@, x);
        }
    }
    out
}

proof fn lemma_same_ranges(ranges: Seq<(i64, i64)>, sorted: Seq<(i64, i64)>)
    requires
        is_stable_sort(ranges, sorted),
    ensures
        forall|i: int| 0 <= i < sorted.len() ==> ints(ranges).contains(#[trigger] ints(sorted)[i]),
        forall|i: int| 0 <= i < ranges.len() ==> ints(sorted).contains(#[trigger] ints(ranges)[i]),
{
    broadcast use vstd::seq_lib::group_to_multiset_ensures;

    law_sort_permutes(ranges, sorted);
    assert forall|i: int| 0 <= i < sorted.len() implies ints(ranges).contains(
        #[trigger] ints(sorted)[i],
    ) by {
        assert(sorted.to_multiset().contains(sorted[i]));
        assert(ranges.contains(sorted[i]));
        assert(ints(ranges)[ranges.index_of(sorted[i])] == ints(sorted)[i]);
    }
    assert forall|i: int| 0 <= i < ranges.len() implies ints(sorted).contains(
        #[trigger] ints(ranges)[i],
    ) by {
        assert(ranges.to_multiset().contains(ranges[i]));
        assert(sorted.contains(ranges[i]));
        assert(ints(sorted)[sorted.index_of(ranges[i])] == ints(ranges)[i]);
    }
}

proof fn lemma_same_coverage(ranges: Seq<(i64, i64)>, sorted: Seq<(i64, i64)>, x: int)
    requires
        is_stable_sort(ranges, sorted),
    ensures
        covered(ints(sorted), x) <==> covered(ints(ranges), x),
{
    lemma_same_ranges(ranges, sorted);
    let (a, b) = (ints(ranges), ints(sorted));
    if covered(a, x) {
        let i = choose|i: int| 0 <= i < a.len() && (#[trigger] a[i]).0 <= x < a[i].0 + a[i].1;
        let k = b.index_of(a[i]);
        assert(b[k].0 <= x < b[k].0 + b[k].1);
    }
    if covered(b, x) {
        let i = choose|i: int| 0 <= i < b.len() && (#[trigger] b[i]).0 <= x < b[i].0 + b[i].1;
        let k = a.index_of(b[i]);
        assert(a[k].0 <= x < a[k].0 + a[k].1);
    }
}

/// The model of a list of ranges has each range in its place, with its two numbers as they are.
pub proof fn law_range_model_is_the_list(list: Seq<(i64, i64)>)
    ensures
        ints(list).len() == list.len(),
        forall|i: int|
            0 <= i < list.len() ==> ints(list)[i].0 == (#[trigger] list[i]).0 && ints(list)[i].1
                == list[i].1,
{
}

} // verus!
