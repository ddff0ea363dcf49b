//! Reading the kernel's array-status text: which arrays are active, and
//! which member devices an array detail report names.  Running the external
//! tools that produce these texts is the caller's part.

use vstd::prelude::*;
use vstd::string::*;
use crate::strutil::contains_seq;
use crate::strutil::lines_of;
use crate::strutil::split_lines;
use crate::strutil::split_whitespace_vec;
use crate::strutil::starts_with_seq;
use crate::strutil::str_contains;
use crate::strutil::str_starts_with;
use crate::strutil::tokens_of;

verus! {

/// A status line reporting an active array.
pub open spec fn is_md_line(l: Seq<char>) -> bool {
    starts_with_seq(l, "md"@) && contains_seq(l, "active"@)
}

/// The device paths of the active arrays a status text reports: for each
/// reporting line, the device directory prefix plus its first token.
pub open spec fn spec_mdstat_arrays(lines: Seq<Seq<char>>) -> Seq<Seq<char>>
    decreases lines.len(),
{
    if lines.len() == 0 {
        Seq::empty()
    } else {
        let rest = spec_mdstat_arrays(lines.drop_first());
        if is_md_line(lines[0]) && tokens_of(lines[0]).len() > 0 {
            seq!["/dev/"@ + tokens_of(lines[0])[0]] + rest
        } else {
            rest
        }
    }
}

/// List the active arrays an array-status text reports.
pub fn parse_mdstat_arrays(mdstat: &str) -> (arrays: Vec<String>)
    ensures
        arrays.deep_view() == spec_mdstat_arrays(lines_of(mdstat@)),
{
    let lines = split_lines(mdstat);
    let ghost lv = lines_of(mdstat@);
    let n = lines.len();
    let mut arrays: Vec<String> = Vec::new();
    proof {
        assert(lv.subrange(0, n as int) =~= lv);
        assert(arrays.deep_view() =~= Seq::<Seq<char>>::empty());
        assert(Seq::<Seq<char>>::empty() + spec_mdstat_arrays(lv) =~= spec_mdstat_arrays(lv));
    }
    let mut i: usize = 0;
    while i < n
        invariant
            i <= n,
            n == lines@.len(),
            lines.deep_view() == lv,
            lv.len() == n,
            spec_mdstat_arrays(lv) == arrays.deep_view() + spec_mdstat_arrays(
                lv.subrange(i as int, n as int),
            ),
        decreases n - i,
    {
        let ghost suf = lv.subrange(i as int, n as int);
        proof {
            assert(suf[0] == lv[i as int]);
            assert(lv[i as int] == lines@[i as int]@);
            assert(suf.drop_first() =~= lv.subrange(i + 1, n as int));
        }
        let l = lines[i].as_str();
        if str_starts_with(l, "md") && str_contains(l, "active") {
            let toks = split_whitespace_vec(l);
            if toks.len() > 0 {
                let mut path = String::from_str("/dev/");
                path.append(toks[0].as_str());
                proof {
                    assert(toks.deep_view()[0] == toks@[0]@);
                }
                let ghost before = arrays.deep_view();
                arrays.push(path);
                proof {
                    assert(arrays.deep_view() =~= before.push("/dev/"@ + tokens_of(
                        lv[i as int],
                    )[0]));
                    assert(before + (seq!["/dev/"@ + tokens_of(lv[i as int])[0]]
                        + spec_mdstat_arrays(suf.drop_first())) =~= arrays.deep_view()
                        + spec_mdstat_arrays(suf.drop_first()));
                }
            }
        }
        i = i + 1;
    }
    proof {
        assert(lv.subrange(n as int, n as int) =~= Seq::<Seq<char>>::empty());
        assert(arrays.deep_view() + Seq::<Seq<char>>::empty() =~= arrays.deep_view());
    }
    arrays
}

/// A detail line naming a member device of an array.
pub open spec fn is_member_line(l: Seq<char>) -> bool {
    contains_seq(l, "/dev/"@) && (contains_seq(l, "active sync"@) || contains_seq(
        l,
        "spare"@,
    ))
}

/// The first token that is a device path.
pub open spec fn first_dev_token(ts: Seq<Seq<char>>) -> Option<Seq<char>>
    decreases ts.len(),
{
    if ts.len() == 0 {
        None
    } else if starts_with_seq(ts[0], "/dev/"@) {
        Some(ts[0])
    } else {
        first_dev_token(ts.drop_first())
    }
}

/// The member devices an array detail text names, in order.
pub open spec fn spec_member_devices(lines: Seq<Seq<char>>) -> Seq<Seq<char>>
    decreases lines.len(),
{
    if lines.len() == 0 {
        Seq::empty()
    } else {
        let rest = spec_member_devices(lines.drop_first());
        if is_member_line(lines[0]) && first_dev_token(tokens_of(lines[0])) is Some {
            seq![first_dev_token(tokens_of(lines[0]))->0] + rest
        } else {
            rest
        }
    }
}

/// Find the first device-path token of a line's tokens.
fn find_dev_token(toks: &Vec<String>) -> (r: Option<String>)
    ensures
        r.deep_view() == first_dev_token(toks.deep_view()),
{
    let ghost tv = toks.deep_view();
    proof {
        assert(tv.subrange(0, tv.len() as int) =~= tv);
    }
    let mut i: usize = 0;
    while i < toks.len()
        invariant
            i <= toks@.len(),
            tv == toks.deep_view(),
            tv.len() == toks@.len(),
            first_dev_token(tv) == first_dev_token(tv.subrange(i as int, tv.len() as int)),
        decreases toks@.len() - i,
    {
        let ghost suf = tv.subrange(i as int, tv.len() as int);
        proof {
            assert(suf[0] == tv[i as int]);
            assert(tv[i as int] == toks@[i as int]@);
            assert(suf.drop_first() =~= tv.subrange(i + 1, tv.len() as int));
        }
        if str_starts_with(toks[i].as_str(), "/dev/") {
            return Some(toks[i].clone());
        }
        i = i + 1;
    }
    proof {
        assert(tv.subrange(tv.len() as int, tv.len() as int) =~= Seq::<Seq<char>>::empty());
    }
    None
}

/// List the member devices an array detail text names.
pub fn parse_member_devices(detail: &str) -> (members: Vec<String>)
    ensures
        members.deep_view() == spec_member_devices(lines_of(detail@)),
{
    let lines = split_lines(detail);
    let ghost lv = lines_of(detail@);
    let n = lines.len();
    let mut members: Vec<String> = Vec::new();
    proof {
        assert(lv.subrange(0, n as int) =~= lv);
        assert(members.deep_view() =~= Seq::<Seq<char>>::empty());
        assert(Seq::<Seq<char>>::empty() + spec_member_devices(lv) =~= spec_member_devices(
            lv,
        ));
    }
    let mut i: usize = 0;
    while i < n
        invariant
            i <= n,
            n == lines@.len(),
            lines.deep_view() == lv,
            lv.len() == n,
            spec_member_devices(lv) == members.deep_view() + spec_member_devices(
                lv.subrange(i as int, n as int),
            ),
        decreases n - i,
    {
        let ghost suf = lv.subrange(i as int, n as int);
        proof {
            assert(suf[0] == lv[i as int]);
            assert(lv[i as int] == lines@[i as int]@);
            assert(suf.drop_first() =~= lv.subrange(i + 1, n as int));
        }
        let l = lines[i].as_str();
        if str_contains(l, "/dev/") && (str_contains(l, "active sync") || str_contains(
            l,
            "spare",
        )) {
            let toks = split_whitespace_vec(l);
            match find_dev_token(&toks) {
                Some(dev) => {
                    let ghost before = members.deep_view();
                    members.push(dev);
                    proof {
                        assert(members.deep_view() =~= before.push(first_dev_token(
                            tokens_of(lv[i as int]),
                        )->0));
                        assert(before + (seq![first_dev_token(tokens_of(lv[i as int]))->0]
                            + spec_member_devices(suf.drop_first())) =~= members.deep_view()
                            + spec_member_devices(suf.drop_first()));
                    }
                },
                None => {
                },
            }
        }
        i = i + 1;
    }
    proof {
        assert(lv.subrange(n as int, n as int) =~= Seq::<Seq<char>>::empty());
        assert(members.deep_view() + Seq::<Seq<char>>::empty() =~= members.deep_view());
    }
    members
}

} // verus!
