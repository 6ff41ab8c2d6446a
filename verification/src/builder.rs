//! The cache builder: every line of the downloaded list, in order, appends
//! its records to a fresh byte image; the first failing line aborts the
//! whole build and nothing is produced.

use vstd::prelude::*;
use crate::codec::{bytes_of_records, lemma_bytes_of_records_push, write_record};
use crate::errors::BuildError;
use crate::grammar::{Entry, line_error, line_fails, line_records, parse_line, range_records};
use crate::lines::{lemma_vec_u8_deep_view, spec_lines, split_lines};

verus! {

/// The first `cnt` records of an ascending range starting at `lo`.
spec fn range_prefix(lo: nat, cnt: nat) -> Seq<u32> {
    Seq::new(cnt, |k: int| (lo + k) as u32)
}

/// The records the first `n` lines contribute, in order.
pub open spec fn records_upto(ls: Seq<Seq<u8>>, n: int) -> Seq<u32>
    decreases n,
{
    if n <= 0 {
        Seq::empty()
    } else {
        records_upto(ls, n - 1) + line_records(ls[n - 1])
    }
}

/// All records the list's lines contribute, in order.
pub open spec fn all_records(ls: Seq<Seq<u8>>) -> Seq<u32> {
    records_upto(ls, ls.len() as int)
}

/// The position of the first failing line; meaningful when one exists.
pub open spec fn first_failing(ls: Seq<Seq<u8>>) -> int
    decreases ls.len(),
{
    if ls.len() == 0 {
        0
    } else if line_fails(ls[0]) {
        0
    } else {
        1 + first_failing(ls.drop_first())
    }
}

/// A failing line with none failing before it is the first failing line.
proof fn lemma_first_failing(ls: Seq<Seq<u8>>, i: int)
    requires
        0 <= i < ls.len(),
        line_fails(ls[i]),
        forall|j: int| 0 <= j < i ==> !line_fails(#[trigger] ls[j]),
    ensures
        first_failing(ls) == i,
    decreases i,
{
    if i > 0 {
        assert(ls.drop_first()[i - 1] == ls[i]);
        assert forall|j: int| 0 <= j < i - 1 implies !line_fails(#[trigger] ls.drop_first()[j]) by {
            assert(ls.drop_first()[j] == ls[j + 1]);
        }
        lemma_first_failing(ls.drop_first(), i - 1);
    }
}

/// Builds the cache's byte image from the downloaded list: one four-byte
/// record per code point of every accepted line, in list order. The first
/// failing line aborts the build with its error.
pub fn build_cache(body: &Vec<u8>) -> (r: Result<Vec<u8>, BuildError>)
    ensures
        r is Ok <==> (forall|j: int|
            0 <= j < spec_lines(body@).len() ==> !line_fails(#[trigger] spec_lines(body@)[j])),
        r is Ok ==> r->Ok_0@ == bytes_of_records(all_records(spec_lines(body@))),
        r is Ok ==> r->Ok_0@.len() == 4 * all_records(spec_lines(body@)).len(),
        r is Err ==> r->Err_0 == line_error(spec_lines(body@)[first_failing(spec_lines(body@))]),
{
    let ls = split_lines(body);
    let ghost lsq = spec_lines(body@);
    let mut out: Vec<u8> = Vec::new();
    let mut i: usize = 0;
    let m = ls.len();
    while i < m
        invariant
            i <= m,
            m == ls@.len(),
            ls.deep_view() == lsq,
            lsq == spec_lines(body@),
            forall|j: int| 0 <= j < i ==> !line_fails(#[trigger] lsq[j]),
            out@ == bytes_of_records(records_upto(lsq, i as int)),
        decreases m - i,
    {
        let line_ref: &Vec<u8> = &ls[i];
        proof {
            lemma_vec_u8_deep_view(*line_ref);
            assert(lsq[i as int] == ls@[i as int].deep_view());
        }
        match parse_line(line_ref) {
            Err(e) => {
                proof {
                    lemma_first_failing(lsq, i as int);
                }
                return Err(e);
            },
            Ok(None) => {
                proof {
                    assert(records_upto(lsq, i + 1) =~= records_upto(lsq, i as int));
                }
            },
            Ok(Some(Entry::Single(v))) => {
                write_record(&mut out, v);
                proof {
                    lemma_bytes_of_records_push(records_upto(lsq, i as int), v);
                    assert(records_upto(lsq, i + 1) =~= records_upto(lsq, i as int).push(v));
                }
            },
            Ok(Some(Entry::Range(lo, hi))) => {
                assert(lo <= hi);
                let ghost base = records_upto(lsq, i as int);
                let hi_wide: u64 = hi as u64;
                let mut cp: u64 = lo as u64;
                assert(range_prefix(lo as nat, 0) =~= Seq::<u32>::empty());
                assert(base + range_prefix(lo as nat, 0) =~= base);
                while cp <= hi_wide
                    invariant
                        lo as u64 <= cp <= hi_wide + 1,
                        hi_wide == hi,
                        lo <= hi,
                        out@ == bytes_of_records(base + range_prefix(lo as nat, (cp - lo) as nat)),
                    decreases hi_wide + 1 - cp,
                {
                    let ghost before = range_prefix(lo as nat, (cp - lo) as nat);
                    write_record(&mut out, cp as u32);
                    proof {
                        lemma_bytes_of_records_push(base + before, cp as u32);
                        assert(range_prefix(lo as nat, (cp + 1 - lo) as nat) =~= before.push(
                            cp as u32));
                        assert(base + before.push(cp as u32) =~= (base + before).push(cp as u32));
                    }
                    cp = cp + 1;
                }
                proof {
                    assert(range_prefix(lo as nat, (hi + 1 - lo) as nat) =~= range_records(
                        lo as nat, hi as nat));
                    assert(records_upto(lsq, i + 1) =~= base + range_records(lo as nat, hi as nat));
                }
            },
        }
        i = i + 1;
    }
    proof {
        assert(records_upto(lsq, m as int) == all_records(lsq));
    }
    Ok(out)
}

} // verus!
