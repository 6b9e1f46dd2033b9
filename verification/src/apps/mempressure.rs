//! How much memory the host has left.

use vstd::prelude::*;
use vstd::slice::slice_subrange;

use crate::number::{parse, parse_number};
use crate::text::{chars_of, first_word, first_word_of, has_prefix, lines, lines_of, pieces, starts_with};

verus! {

/// What stands before the number on the line that counts.
pub const MEM_AVAILABLE: &'static str = "MemAvailable:";

/// The number on a line, if it is the line that counts and begins with one.
pub open spec fn available_on(line: Seq<char>) -> Option<nat> {
    match first_word(line.skip(MEM_AVAILABLE@.len() as int)) {
        Some(w) => parse(w, 10, u64::MAX as nat),
        None => None,
    }
}

/// The kilobytes that the first line that counts tells of.
pub open spec fn available_kb(all: Seq<Seq<char>>) -> Option<nat>
    decreases all.len(),
{
    if all.len() == 0 {
        None
    } else if starts_with(all[0], MEM_AVAILABLE@) {
        available_on(all[0])
    } else {
        available_kb(all.drop_first())
    }
}

/// The available memory in kilobytes, as the kernel's overview of memory tells
/// it.
pub fn parse_mem_available_kb(meminfo: &str) -> (r: Option<u64>)
    ensures
        match r {
            Some(n) => available_kb(lines(meminfo@)) == Some(n as nat),
            None => available_kb(lines(meminfo@)) is None,
        },
{
    let v = chars_of(meminfo);
    let all = lines_of(&v);
    let field = chars_of(MEM_AVAILABLE);
    let mut i: usize = 0;
    proof {
        assert(pieces(all@).skip(0) =~= pieces(all@));
    }
    while i < all.len()
        invariant
            i <= all.len(),
            pieces(all@) == lines(meminfo@),
            field@ == MEM_AVAILABLE@,
            available_kb(lines(meminfo@)) == available_kb(pieces(all@).skip(i as int)),
        decreases all.len() - i,
    {
        let line = &all[i];
        proof {
            assert(pieces(all@).skip(i as int)[0] == line@);
            assert(pieces(all@).skip(i as int).drop_first() =~= pieces(all@).skip(i + 1));
        }
        if has_prefix(line, &field) {
            let rest = slice_subrange(line, field.len(), line.len());
            proof {
                assert(rest@ =~= line@.skip(field@.len() as int));
            }
            return match first_word_of(rest) {
                Some(w) => parse_number(w, 10, u64::MAX),
                None => None,
            };
        }
        i = i + 1;
    }
    None
}

/// The available memory in bytes.
pub fn parse_mem_available(meminfo: &str) -> (r: Option<u64>)
    requires
        available_kb(lines(meminfo@)) matches Some(n) ==> n * 1024 <= u64::MAX,
    ensures
        match r {
            Some(n) => available_kb(lines(meminfo@)) is Some && n == available_kb(
                lines(meminfo@),
            )->0 * 1024,
            None => available_kb(lines(meminfo@)) is None,
        },
{
    match parse_mem_available_kb(meminfo) {
        Some(kb) => Some(kb * 1024),
        None => None,
    }
}

/// The first line that begins with `MemAvailable:` decides. What counts is the
/// first word behind that, if it is a number.
pub proof fn lemma_available_kb(all: Seq<Seq<char>>, i: int, rest: Seq<char>)
    requires
        0 <= i < all.len(),
        all[i] == "MemAvailable:"@ + rest,
        forall|j: int| 0 <= j < i ==> !starts_with(#[trigger] all[j], "MemAvailable:"@),
    ensures
        first_word(rest) is None ==> available_kb(all) is None,
        first_word(rest) matches Some(w) ==> available_kb(all) == parse(
            w,
            10,
            0xffff_ffff_ffff_ffff,
        ),
    decreases i,
{
    let p = "MemAvailable:"@;
    if i == 0 {
        assert(all[0].take(p.len() as int) =~= p);
        assert(all[0].skip(p.len() as int) =~= rest);
        crate::text::lemma_starts_with(all[0], p);
    } else {
        assert(!starts_with(all[0], p));
        let tail = all.drop_first();
        assert(tail[i - 1] == all[i]);
        assert forall|j: int| 0 <= j < i - 1 implies !starts_with(#[trigger] tail[j], p) by {
            assert(tail[j] == all[j + 1]);
        }
        lemma_available_kb(tail, i - 1, rest);
    }
}

/// Without such a line nothing is known.
pub proof fn lemma_no_available_kb(all: Seq<Seq<char>>)
    requires
        forall|j: int| 0 <= j < all.len() ==> !starts_with(#[trigger] all[j], "MemAvailable:"@),
    ensures
        available_kb(all) is None,
    decreases all.len(),
{
    if all.len() > 0 {
        assert(!starts_with(all[0], "MemAvailable:"@));
        let tail = all.drop_first();
        assert forall|j: int| 0 <= j < tail.len() implies !starts_with(
            #[trigger] tail[j],
            "MemAvailable:"@,
        ) by {
            assert(tail[j] == all[j + 1]);
        }
        lemma_no_available_kb(tail);
    }
}

} // verus!
