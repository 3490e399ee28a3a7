//! Security descriptors: what to ask the system for, and what to write back with which rights.
//!
//! A descriptor has an owner, a group, an access list (DACL) and an audit list (SACL). Reading or
//! writing all of them takes privileges that a process may not have. A descriptor that cannot be
//! read whole is not stored; one that cannot be written whole is written in part.

use vstd::prelude::*;

use crate::encoding::{base64_bytes, base64_len, base64_text, decode, encode};

verus! {

/// The attribute name under which a security descriptor is stored.
pub const SD_KEY: &'static str = "windows.security_descriptor";

/// The bit that stands for the owner.
pub const OWNER_SECURITY_INFORMATION: u32 = 0x1;

/// The bit that stands for the group.
pub const GROUP_SECURITY_INFORMATION: u32 = 0x2;

/// The bit that stands for the access list.
pub const DACL_SECURITY_INFORMATION: u32 = 0x4;

/// The bit that stands for the audit list.
pub const SACL_SECURITY_INFORMATION: u32 = 0x8;

/// All four parts.
pub const ALL_SD_INFO: u32 = 0xF;

/// The system's answer when all went well.
pub const ERROR_SUCCESS: u32 = 0;

/// The system's answer when the process lacks a privilege that one of the parts needs.
pub const ERROR_PRIVILEGE_NOT_HELD: u32 = 1314;

/// What the system hands out: the descriptor, if the call went through and gave one.
pub open spec fn handed_out(rc: u32, descriptor: Option<Seq<u8>>) -> Option<Seq<u8>> {
    if rc == ERROR_SUCCESS {
        descriptor
    } else {
        None
    }
}

/// The bytes of an optional list.
pub open spec fn bytes_of(descriptor: Option<Vec<u8>>) -> Option<Seq<u8>> {
    match descriptor {
        Some(bytes) => Some(bytes@),
        None => None,
    }
}

/// What the system handed out counts exactly if its answer is 0.
pub proof fn law_only_success_hands_out(rc: u32, descriptor: Option<Seq<u8>>)
    ensures
        rc == 0 ==> handed_out(rc, descriptor) == descriptor,
        rc != 0 ==> handed_out(rc, descriptor) is None,
        ERROR_PRIVILEGE_NOT_HELD == 1314,
{
}

/// The base64 text of what the system handed out, if it did.
pub fn capture_with(rc: u32, descriptor: &Option<Vec<u8>>) -> (r: Option<String>)
    requires
        bytes_of(*descriptor) matches Some(bytes) ==> base64_len(bytes.len() as int) <= isize::MAX,
    ensures
        match handed_out(rc, bytes_of(*descriptor)) {
            Some(bytes) => r matches Some(text) && text@ == base64_text(bytes) && base64_bytes(
                text@,
            ) == Some(bytes),
            None => r is None,
        },
{
    if rc != ERROR_SUCCESS {
        return None;
    }
    match descriptor {
        Some(bytes) => Some(encode(bytes.as_slice())),
        None => None,
    }
}

/// Takes the system's answer to the request for all parts, [`ALL_SD_INFO`]. On any failure, such
/// as a refused audit list, there is no text. The text that comes out stands for the very bytes
/// that were read, so [`apply`] gives them back.
pub fn capture(rc: u32, descriptor: &Option<Vec<u8>>) -> (r: Option<String>)
    requires
        bytes_of(*descriptor) matches Some(bytes) ==> base64_len(bytes.len() as int) <= isize::MAX,
    ensures
        match handed_out(rc, bytes_of(*descriptor)) {
            Some(bytes) => r matches Some(text) && text@ == base64_text(bytes) && base64_bytes(
                text@,
            ) == Some(bytes),
            None => r is None,
        },
{
    capture_with(rc, descriptor)
}

/// The request for all parts names the owner, the group, the access list and the audit list.
pub proof fn law_request_names_all_parts()
    ensures
        ALL_SD_INFO == OWNER_SECURITY_INFORMATION | GROUP_SECURITY_INFORMATION
            | DACL_SECURITY_INFORMATION | SACL_SECURITY_INFORMATION,
{
    assert(0xFu32 == 0x1u32 | 0x2u32 | 0x4u32 | 0x8u32) by (bit_vector);
}

/// The descriptor that a stored text stands for, or `None` where the text is no base64.
pub fn apply(b64_sd: &str) -> (r: Option<Vec<u8>>)
    ensures
        bytes_of(r) == base64_bytes(b64_sd@),
        r matches Some(sd) ==> base64_text(sd@) == b64_sd@,
{
    match decode(b64_sd) {
        Ok(sd) => Some(sd),
        Err(_) => None,
    }
}

/// The parts that a descriptor has.
#[derive(Debug, Clone, Copy, PartialEq, Eq)]
pub struct SdParts {
    /// It names an owner.
    pub owner: bool,
    /// It names a group.
    pub group: bool,
    /// It has an access list.
    pub dacl: bool,
    /// It has an audit list.
    pub sacl: bool,
}

/// The parts that go into a write, and the bits that say so.
#[derive(Debug, Clone, Copy, PartialEq, Eq)]
pub struct SdWrite {
    /// The bits of the parts to write.
    pub info: u32,
    /// Hand over the owner.
    pub with_owner: bool,
    /// Hand over the group.
    pub with_group: bool,
    /// Hand over the access list.
    pub with_dacl: bool,
    /// Hand over the audit list.
    pub with_sacl: bool,
}

/// What to do next when applying a descriptor.
#[derive(Debug, Clone, Copy, PartialEq, Eq)]
pub enum ApplyStep {
    /// Write these parts.
    Write(SdWrite),
    /// Done; some part was written or none was.
    Done(bool),
}

/// `bit` if `present`, else no bit.
pub open spec fn bit_if(present: bool, bit: u32) -> u32 {
    if present {
        bit
    } else {
        0
    }
}

/// The `tier`th attempt: all parts, then all but the audit list, then the access list alone. The
/// bits name only the parts that the descriptor has.
pub open spec fn tier_write(parts: SdParts, tier: int) -> SdWrite {
    let owner = bit_if(parts.owner && tier < 2, OWNER_SECURITY_INFORMATION);
    let group = bit_if(parts.group && tier < 2, GROUP_SECURITY_INFORMATION);
    let dacl = bit_if(parts.dacl, DACL_SECURITY_INFORMATION);
    let sacl = bit_if(parts.sacl && tier < 1, SACL_SECURITY_INFORMATION);
    SdWrite {
        info: owner | group | dacl | sacl,
        with_owner: tier < 2,
        with_group: tier < 2,
        with_dacl: true,
        with_sacl: tier < 1,
    }
}

/// What an attempt writes, part by part: a part goes in exactly if the descriptor has it and the
/// attempt still asks for it. The first attempt asks for all, the second leaves out the audit list, and
/// the third asks for the access list alone. No other bits are set.
pub proof fn law_attempts_ask_for_less_and_less(parts: SdParts, tier: int)
    requires
        0 <= tier < 3,
    ensures
        ({
            let write = tier_write(parts, tier);
            &&& write.info & 1 != 0 <==> parts.owner && tier != 2
            &&& write.info & 2 != 0 <==> parts.group && tier != 2
            &&& write.info & 4 != 0 <==> parts.dacl
            &&& write.info & 8 != 0 <==> parts.sacl && tier == 0
            &&& write.info < 16
            &&& write.with_owner <==> tier != 2
            &&& write.with_group <==> tier != 2
            &&& write.with_dacl
            &&& write.with_sacl <==> tier == 0
        }),
{
    let owner = bit_if(parts.owner && tier < 2, OWNER_SECURITY_INFORMATION);
    let group = bit_if(parts.group && tier < 2, GROUP_SECURITY_INFORMATION);
    let dacl = bit_if(parts.dacl, DACL_SECURITY_INFORMATION);
    let sacl = bit_if(parts.sacl && tier < 1, SACL_SECURITY_INFORMATION);
    let info = owner | group | dacl | sacl;
    assert((info & 1 != 0 <==> owner == 1) && (info & 2 != 0 <==> group == 2) && (info & 4 != 0
        <==> dacl == 4) && (info & 8 != 0 <==> sacl == 8) && info < 16) by (bit_vector)
        requires
            owner == 0 || owner == 1,
            group == 0 || group == 2,
            dacl == 0 || dacl == 4,
            sacl == 0 || sacl == 8,
            info == owner | group | dacl | sacl,
    ;
}

/// The first attempt from `tier` on that writes anything; 3 if there is none.
pub open spec fn first_attempt(parts: SdParts, tier: int) -> int
    decreases 3 - tier,
{
    if tier >= 3 {
        3
    } else if tier_write(parts, tier).info != 0 {
        tier
    } else {
        first_attempt(parts, tier + 1)
    }
}

/// The attempt at `tier` or, where none is left, the end.
pub open spec fn attempt_or_end(parts: SdParts, tier: int) -> ApplyStep {
    if tier < 3 {
        ApplyStep::Write(tier_write(parts, tier))
    } else {
        ApplyStep::Done(false)
    }
}

/// A run writes as long as there is an attempt left, and ends without success when there is none.
pub proof fn law_runs_end_without_success_when_nothing_is_left(parts: SdParts, tier: int)
    ensures
        tier < 3 ==> (attempt_or_end(parts, tier) matches ApplyStep::Write(write) && write
            == tier_write(parts, tier)),
        tier >= 3 ==> (attempt_or_end(parts, tier) matches ApplyStep::Done(written) && !written),
{
}

/// The outcome of a whole run in which the system answers `answers(tier)` to the attempt at
/// `tier`.
pub open spec fn outcome(parts: SdParts, tier: int, answers: spec_fn(int) -> u32) -> bool
    decreases 3 - tier,
{
    let attempt = first_attempt(parts, tier);
    if attempt < tier || attempt >= 3 {
        false
    } else if answers(attempt) == ERROR_SUCCESS {
        true
    } else if answers(attempt) != ERROR_PRIVILEGE_NOT_HELD {
        false
    } else {
        outcome(parts, attempt + 1, answers)
    }
}

/// A run succeeds exactly if some attempt that writes anything goes through and all such attempts
/// before it failed for lack of a privilege.
pub proof fn law_first_permitted_attempt_decides(parts: SdParts, answers: spec_fn(int) -> u32)
    ensures
        outcome(parts, 0, answers) <==> exists|tier: int|
            {
                &&& 0 <= tier < 3
                &&& (#[trigger] tier_write(parts, tier)).info != 0
                &&& answers(tier) == ERROR_SUCCESS
                &&& forall|earlier: int|
                    0 <= earlier < tier && (#[trigger] tier_write(parts, earlier)).info != 0
                        ==> answers(earlier) == ERROR_PRIVILEGE_NOT_HELD
            },
{
    reveal_with_fuel(first_attempt, 4);
    reveal_with_fuel(outcome, 4);
    let (a, b, c) = (tier_write(parts, 0), tier_write(parts, 1), tier_write(parts, 2));
    if outcome(parts, 0, answers) {
        let first = first_attempt(parts, 0);
        let second = first_attempt(parts, first + 1);
        let third = first_attempt(parts, second + 1);
        let tier = if answers(first) == ERROR_SUCCESS {
            first
        } else if answers(second) == ERROR_SUCCESS {
            second
        } else {
            third
        };
        assert(tier_write(parts, tier).info != 0);
    }
}

/// A run passes over exactly those attempts that would write nothing.
pub proof fn law_empty_attempts_are_passed_over(parts: SdParts, tier: int)
    requires
        0 <= tier <= 3,
    ensures
        tier <= first_attempt(parts, tier) <= 3,
        first_attempt(parts, tier) < 3 ==> tier_write(parts, first_attempt(parts, tier)).info != 0,
        forall|passed: int|
            tier <= passed < first_attempt(parts, tier) ==> (#[trigger] tier_write(
                parts,
                passed,
            )).info == 0,
    decreases 3 - tier,
{
    if tier < 3 && tier_write(parts, tier).info == 0 {
        law_empty_attempts_are_passed_over(parts, tier + 1);
    }
}

/// A run that has come to an attempt ends as the answers to that attempt and the later ones say.
pub proof fn law_run_follows_the_answers(
    parts: SdParts,
    tier: int,
    answers: spec_fn(int) -> u32,
)
    requires
        0 <= tier < 3,
        first_attempt(parts, tier) == tier,
    ensures
        answers(tier) == ERROR_SUCCESS ==> outcome(parts, tier, answers),
        answers(tier) != ERROR_SUCCESS && answers(tier) != ERROR_PRIVILEGE_NOT_HELD ==> !outcome(
            parts,
            tier,
            answers,
        ),
        answers(tier) == ERROR_PRIVILEGE_NOT_HELD ==> outcome(parts, tier, answers) == outcome(
            parts,
            first_attempt(parts, tier + 1),
            answers,
        ),
        first_attempt(parts, first_attempt(parts, tier + 1)) == first_attempt(parts, tier + 1),
{
    reveal_with_fuel(first_attempt, 4);
    reveal_with_fuel(outcome, 4);
}

/// A descriptor with an access list is applied, if only in part, wherever the process may write
/// the access list and lacks nothing but privileges for the rest.
pub proof fn law_access_list_goes_through_without_privileges(
    parts: SdParts,
    answers: spec_fn(int) -> u32,
)
    requires
        parts.dacl,
        answers(0) == ERROR_SUCCESS || answers(0) == ERROR_PRIVILEGE_NOT_HELD,
        answers(1) == ERROR_SUCCESS || answers(1) == ERROR_PRIVILEGE_NOT_HELD,
        answers(2) == ERROR_SUCCESS,
    ensures
        outcome(parts, 0, answers),
{
    law_first_permitted_attempt_decides(parts, answers);
    assert forall|tier: int| (#[trigger] tier_write(parts, tier)).info != 0 by {
        let owner = bit_if(parts.owner && tier < 2, OWNER_SECURITY_INFORMATION);
        let group = bit_if(parts.group && tier < 2, GROUP_SECURITY_INFORMATION);
        let sacl = bit_if(parts.sacl && tier < 1, SACL_SECURITY_INFORMATION);
        assert(owner | group | 0x4u32 | sacl != 0) by (bit_vector);
    }
    let tier = if answers(0) == ERROR_SUCCESS {
        0int
    } else if answers(1) == ERROR_SUCCESS {
        1int
    } else {
        2int
    };
    assert(tier_write(parts, tier).info != 0);
}

/// A run over the attempts to write a descriptor.
#[derive(Debug, Clone, Copy)]
pub struct SdApply {
    parts: SdParts,
    tier: u8,
}

impl SdApply {
    /// The parts that the descriptor has.
    pub closed spec fn parts(&self) -> SdParts {
        self.parts
    }

    /// The attempt that was made last, or 3 when the run is over.
    pub closed spec fn tier(&self) -> int {
        self.tier as int
    }

    fn write_at(parts: SdParts, tier: u8) -> (r: SdWrite)
        ensures
            r == tier_write(parts, tier as int),
    {
        let owner: u32 = if parts.owner && tier < 2 {
            OWNER_SECURITY_INFORMATION
        } else {
            0
        };
        let group: u32 = if parts.group && tier < 2 {
            GROUP_SECURITY_INFORMATION
        } else {
            0
        };
        let dacl: u32 = if parts.dacl {
            DACL_SECURITY_INFORMATION
        } else {
            0
        };
        let sacl: u32 = if parts.sacl && tier < 1 {
            SACL_SECURITY_INFORMATION
        } else {
            0
        };
        SdWrite {
            info: owner | group | dacl | sacl,
            with_owner: tier < 2,
            with_group: tier < 2,
            with_dacl: true,
            with_sacl: tier < 1,
        }
    }

    /// Goes on to the first attempt from `tier` on that writes anything.
    fn go_on(&mut self, tier: u8) -> (r: ApplyStep)
        requires
            tier <= 3,
        ensures
            final(self).parts() == old(self).parts(),
            final(self).tier() == first_attempt(old(self).parts(), tier as int),
            r == attempt_or_end(
                old(self).parts(),
                first_attempt(old(self).parts(), tier as int),
            ),
        decreases 3 - tier,
    {
        if tier >= 3 {
            self.tier = 3;
            return ApplyStep::Done(false);
        }
        let write: SdWrite = Self::write_at(self.parts, tier);
        if write.info != 0 {
            self.tier = tier;
            return ApplyStep::Write(write);
        }
        self.go_on(tier + 1)
    }

    /// Starts a run: the first attempt, or the end where the descriptor has no parts.
    pub fn start(parts: SdParts) -> (r: (SdApply, ApplyStep))
        ensures
            r.0.parts() == parts,
            r.0.tier() == first_attempt(parts, 0),
            r.1 == attempt_or_end(parts, first_attempt(parts, 0)),
    {
        let mut run = SdApply { parts, tier: 0 };
        let step: ApplyStep = run.go_on(0);
        (run, step)
    }

    /// Takes the system's answer to the last attempt. Only the lack of a privilege leads to
    /// another one.
    pub fn answered(&mut self, rc: u32) -> (r: ApplyStep)
        requires
            old(self).tier() < 3,
        ensures
            final(self).parts() == old(self).parts(),
            rc == ERROR_SUCCESS ==> r == ApplyStep::Done(true) && final(self).tier() == 3,
            rc != ERROR_SUCCESS && rc != ERROR_PRIVILEGE_NOT_HELD ==> r == ApplyStep::Done(false)
                && final(self).tier() == 3,
            rc == ERROR_PRIVILEGE_NOT_HELD ==> {
                &&& final(self).tier() == first_attempt(old(self).parts(), old(self).tier() + 1)
                &&& r == attempt_or_end(old(self).parts(), final(self).tier())
            },
    {
        if rc == ERROR_SUCCESS {
            self.tier = 3;
            return ApplyStep::Done(true);
        }
        if rc != ERROR_PRIVILEGE_NOT_HELD {
            self.tier = 3;
            return ApplyStep::Done(false);
        }
        self.go_on(self.tier + 1)
    }
}

} // verus!
