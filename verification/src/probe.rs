//! What a trial of reply capture reports.

use vstd::prelude::*;

use crate::text::{concat2, concat3, decimal, decimal_of, deep, group_deep, lines, lines_of};

verus! {

/// The bytes that a text takes.
pub open spec fn bytes_of(t: Seq<char>) -> nat {
    vstd::utf8::encode_utf8(t).len()
}

fn count_bytes(t: &str) -> (r: usize)
    ensures
        r == bytes_of(t@),
{
    t.as_bytes().len()
}

/// The size of a text, in words.
pub open spec fn size_words(t: Seq<char>) -> Seq<char> {
    decimal(bytes_of(t)) + " bytes, "@ + decimal(lines(t).len()) + " lines"@
}

pub fn size_line(t: &str) -> (r: String)
    ensures
        r@ == size_words(t@),
{
    let n: usize = lines_of(t).len();
    assert(n == lines(t@).len());
    let head: String = concat2(decimal_of(count_bytes(t) as u64).as_str(), " bytes, ");
    concat3(head.as_str(), decimal_of(n as u64).as_str(), " lines")
}

pub open spec fn shifted(s: Seq<Seq<char>>) -> Seq<Seq<char>> {
    Seq::new(s.len(), |i: int| "  "@ + s[i])
}

/// A captured text between two marks; what to say where nothing was captured.
pub open spec fn capture_lines(captured: Option<Seq<char>>, nothing: Seq<char>) -> Seq<Seq<char>> {
    match captured {
        Some(t) => seq!["  "@ + size_words(t), "  ---8<---"@] + shifted(lines(t)) + seq![
            "  --->8---"@,
        ],
        None => seq!["  "@ + nothing],
    }
}

pub fn report_harvest(captured: Option<&str>, nothing: &str) -> (r: Vec<String>)
    ensures
        deep(r@) == capture_lines(
            match captured {
                Some(t) => Some(t@),
                None => None,
            },
            nothing@,
        ),
{
    broadcast use group_deep;

    let mut out: Vec<String> = Vec::new();
    match captured {
        None => {
            out.push(concat2("  ", nothing));
            assert(deep(out@) =~= seq!["  "@ + nothing@]);
        },
        Some(t) => {
            out.push(concat2("  ", size_line(t).as_str()));
            out.push("  ---8<---".to_owned());
            let ls: Vec<String> = lines_of(t);
            let ghost all = deep(ls@);
            let ghost head = deep(out@);
            let mut i: usize = 0;
            assert(shifted(all).take(0) =~= Seq::<Seq<char>>::empty());
            while i < ls.len()
                invariant
                    i <= ls@.len(),
                    all == deep(ls@),
                    deep(out@) == head + shifted(all).take(i as int),
                decreases ls@.len() - i,
            {
                assert(all[i as int] == ls@[i as int]@);
                let ghost before = deep(out@);
                let l: String = concat2("  ", ls[i].as_str());
                let ghost lv = l@;
                out.push(l);
                proof {
                    assert(lv == shifted(all)[i as int]);
                    assert(shifted(all).take(i + 1) =~= shifted(all).take(i as int).push(lv));
                    assert(deep(out@) =~= before.push(lv));
                    assert((head + shifted(all).take(i as int)).push(lv) =~= head + shifted(all).take(
                        i + 1,
                    ));
                }
                i += 1;
            }
            assert(shifted(all).take(i as int) =~= shifted(all));
            out.push("  --->8---".to_owned());
            assert(deep(out@) =~= capture_lines(Some(t@), nothing@));
        },
    }
    out
}

/// What the trial shows where at most one of the two ways captured something;
/// nothing where both did, and they are to be compared.
pub fn verdict(transcript: Option<&str>, screen: Option<&str>) -> (r: Option<String>)
    ensures
        match (transcript, screen) {
            (Some(_), Some(_)) => r is None,
            (Some(t), None) => r matches Some(s) && s@ == "  transcript only ("@ + decimal(
                bytes_of(t@),
            ) + " bytes); screen returned nothing"@,
            (None, Some(t)) => r matches Some(s) && s@ == "  SCREEN ONLY ("@ + decimal(bytes_of(t@))
                + " bytes) — transcript path failed"@,
            (None, None) => r matches Some(s) && s@
                == "  NOTHING CAPTURED — this is the failure mode that kills item 4"@,
        },
{
    match transcript {
        Some(t) => match screen {
            Some(_) => None,
            None => Some(
                concat3(
                    "  transcript only (",
                    decimal_of(count_bytes(t) as u64).as_str(),
                    " bytes); screen returned nothing",
                ),
            ),
        },
        None => match screen {
            Some(t) => Some(
                concat3(
                    "  SCREEN ONLY (",
                    decimal_of(count_bytes(t) as u64).as_str(),
                    " bytes) — transcript path failed",
                ),
            ),
            None => Some(
                "  NOTHING CAPTURED — this is the failure mode that kills item 4".to_owned(),
            ),
        },
    }
}

} // verus!
