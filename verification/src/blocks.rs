//! The configuration-block manager's core: locating marker-delimited blocks
//! in a text buffer held as lines.
//!
//! A line starts a block when it contains the provisioning marker, ends
//! with the `#` sentinel, and names RAID in either case.  The block runs to
//! the first following line that begins with one of the two end sentinels;
//! when none follows, the block is the single start line.  Scanning resumes
//! right after the resolved end, so markers inside a block are not
//! separately recognized.

use vstd::prelude::*;
use vstd::string::*;
use crate::size::all_digits;
use crate::size::digits_val;
use crate::strutil::contains_seq;
use crate::strutil::ends_with_seq;
use crate::strutil::starts_with_seq;
use crate::strutil::str_contains;
use crate::strutil::str_ends_with;
use crate::strutil::str_starts_with;
use crate::strutil::split_whitespace_vec;
use crate::strutil::str_trim;
use crate::strutil::trim_spec;
use crate::strutil::tokens_of;
use crate::strutil::lines_of;
use crate::strutil::join_lines_spec;
use crate::strutil::no_newline;
use crate::strutil::lemma_lines_acc_no_newline;
use crate::strutil::lemma_lines_of_join;
use crate::chars::char_is_digit;
use crate::chars::digit_of_char;

verus! {

/// One marker-delimited configuration block found in the buffer.
/// Line numbers are offsets into the parse-time line list and are invalid
/// the moment the buffer changes: re-parse after every edit.
#[derive(Debug, Clone, PartialEq)]
pub struct RaidEntry {
    pub start_line: usize,
    pub end_line: usize,
    pub raid_level: String,
    pub filesystem: String,
    pub device_count: usize,
    pub header_comment: String,
}

/// The mathematical image of a block entry.
pub struct RaidEntryView {
    pub start_line: int,
    pub end_line: int,
    pub raid_level: Seq<char>,
    pub filesystem: Seq<char>,
    pub device_count: int,
    pub header_comment: Seq<char>,
}

impl View for RaidEntry {
    type V = RaidEntryView;

    open spec fn view(&self) -> RaidEntryView {
        RaidEntryView {
            start_line: self.start_line as int,
            end_line: self.end_line as int,
            raid_level: self.raid_level@,
            filesystem: self.filesystem@,
            device_count: self.device_count as int,
            header_comment: self.header_comment@,
        }
    }
}

impl DeepView for RaidEntry {
    type V = RaidEntryView;

    open spec fn deep_view(&self) -> RaidEntryView {
        self.view()
    }
}

/// A block-start line: the provisioning marker, the trailing sentinel, and
/// a RAID keyword in either case.
pub open spec fn is_block_start(l: Seq<char>) -> bool {
    &&& contains_seq(l, "Provision"@)
    &&& ends_with_seq(l, "#"@)
    &&& (contains_seq(l, "RAID"@) || contains_seq(l, "raid"@))
}

/// Executable block-start test.
pub fn line_is_block_start(l: &str) -> (r: bool)
    ensures
        r == is_block_start(l@),
{
    str_contains(l, "Provision") && str_ends_with(l, "#") && (str_contains(l, "RAID")
        || str_contains(l, "raid"))
}

/// A block-end line: one of the two end sentinels at the line start.
pub open spec fn is_block_end(l: Seq<char>) -> bool {
    starts_with_seq(l, "# EOP"@) || starts_with_seq(l, "# End"@)
}

/// Executable block-end test.
pub fn line_is_block_end(l: &str) -> (r: bool)
    ensures
        r == is_block_end(l@),
{
    str_starts_with(l, "# EOP") || str_starts_with(l, "# End")
}

/// Offset of the first end line in a line suffix, `-1` when none.
pub open spec fn first_end_offset(suffix: Seq<Seq<char>>) -> int
    decreases suffix.len(),
{
    if suffix.len() == 0 {
        -1
    } else if is_block_end(suffix[0]) {
        0
    } else {
        let r = first_end_offset(suffix.drop_first());
        if r < 0 {
            -1
        } else {
            1 + r
        }
    }
}

pub proof fn lemma_first_end_offset(suffix: Seq<Seq<char>>)
    ensures
        -1 <= first_end_offset(suffix) < suffix.len(),
        first_end_offset(suffix) == -1 ==> forall|q: int|
            0 <= q < suffix.len() ==> !is_block_end(suffix[q]),
        first_end_offset(suffix) >= 0 ==> is_block_end(suffix[first_end_offset(suffix)])
            && (forall|q: int| 0 <= q < first_end_offset(suffix) ==> !is_block_end(suffix[q])),
    decreases suffix.len(),
{
    if suffix.len() > 0 && !is_block_end(suffix[0]) {
        lemma_first_end_offset(suffix.drop_first());
        let rest = suffix.drop_first();
        let r = first_end_offset(rest);
        if r == -1 {
            assert forall|q: int| 0 <= q < suffix.len() implies !is_block_end(suffix[q]) by {
                if q > 0 {
                    assert(rest[q - 1] == suffix[q]);
                }
            }
        } else {
            assert(rest[r] == suffix[1 + r]);
            assert forall|q: int| 0 <= q < 1 + r implies !is_block_end(suffix[q]) by {
                if q > 0 {
                    assert(rest[q - 1] == suffix[q]);
                }
            }
        }
    }
}

/// The end line resolved for a block starting at `i`: the first end line
/// after it, or `i` itself when none follows.
pub open spec fn block_end(lines: Seq<Seq<char>>, i: int) -> int {
    let r = first_end_offset(lines.subrange(i + 1, lines.len() as int));
    if r < 0 {
        i
    } else {
        i + 1 + r
    }
}

/// A token that names the RAID level.
pub open spec fn is_level_token(t: Seq<char>) -> bool {
    starts_with_seq(t, "RAID"@) || starts_with_seq(t, "raid"@)
}

/// A token that names a filesystem, among tokens that do not name the level.
pub open spec fn is_fs_token(t: Seq<char>) -> bool {
    t.len() >= 3 && (contains_seq(t, "EXT"@) || contains_seq(t, "BTRFS"@) || contains_seq(
        t,
        "XFS"@,
    ) || contains_seq(t, "NTFS"@) || contains_seq(t, "FAT"@))
}

/// A token that carries the device count, e.g. `4x`.
pub open spec fn is_count_token(t: Seq<char>) -> bool {
    ends_with_seq(t, "x"@)
}

/// First token naming the level.
pub open spec fn first_level_token(ts: Seq<Seq<char>>) -> Option<Seq<char>>
    decreases ts.len(),
{
    if ts.len() == 0 {
        None
    } else if is_level_token(ts[0]) {
        Some(ts[0])
    } else {
        first_level_token(ts.drop_first())
    }
}

/// First token naming a filesystem; a token naming the level is never one.
pub open spec fn first_fs_token(ts: Seq<Seq<char>>) -> Option<Seq<char>>
    decreases ts.len(),
{
    if ts.len() == 0 {
        None
    } else if !is_level_token(ts[0]) && is_fs_token(ts[0]) {
        Some(ts[0])
    } else {
        first_fs_token(ts.drop_first())
    }
}

/// First count token; tokens naming the level or a filesystem come first in
/// the classification and are never count tokens.
pub open spec fn first_count_token(ts: Seq<Seq<char>>) -> Option<Seq<char>>
    decreases ts.len(),
{
    if ts.len() == 0 {
        None
    } else if !is_level_token(ts[0]) && !is_fs_token(ts[0]) && is_count_token(ts[0]) {
        Some(ts[0])
    } else {
        first_count_token(ts.drop_first())
    }
}

/// The count a token such as `4x` denotes: the digits before the trailing
/// multiplier character, zero when they are absent, not all digits, or too
/// large.
pub open spec fn count_token_value(t: Seq<char>) -> int {
    let ds = t.drop_last();
    if ds.len() >= 1 && all_digits(ds) && digits_val(ds) <= usize::MAX {
        digits_val(ds)
    } else {
        0
    }
}

/// The level tag a header line carries, `Unknown` when none.
pub open spec fn header_level_tag(l: Seq<char>) -> Seq<char> {
    match first_level_token(tokens_of(l)) {
        Some(t) => t,
        None => "Unknown"@,
    }
}

/// The filesystem tag a header line carries, `Unknown` when none.
pub open spec fn header_fs_tag(l: Seq<char>) -> Seq<char> {
    match first_fs_token(tokens_of(l)) {
        Some(t) => t,
        None => "Unknown"@,
    }
}

/// The device count a header line carries, zero when none.
pub open spec fn header_device_count(l: Seq<char>) -> int {
    match first_count_token(tokens_of(l)) {
        Some(t) => count_token_value(t),
        None => 0,
    }
}

/// The entry a block starting at line `i` yields.
pub open spec fn entry_at(lines: Seq<Seq<char>>, i: int) -> RaidEntryView {
    RaidEntryView {
        start_line: i,
        end_line: block_end(lines, i),
        raid_level: header_level_tag(lines[i]),
        filesystem: header_fs_tag(lines[i]),
        device_count: header_device_count(lines[i]),
        header_comment: lines[i],
    }
}

/// Every block found scanning from line `i` on, in order.
pub open spec fn spec_parse_from(lines: Seq<Seq<char>>, i: int) -> Seq<RaidEntryView>
    decreases lines.len() - i,
{
    if i < 0 || i >= lines.len() {
        Seq::empty()
    } else if is_block_start(lines[i]) {
        let e = block_end(lines, i);
        let next = if e + 1 >= lines.len() {
            lines.len() as int
        } else {
            e + 1
        };
        seq![entry_at(lines, i)] + spec_parse_from(lines, next)
    } else {
        spec_parse_from(lines, i + 1)
    }
}

/// Parse the device count out of a count token.
fn parse_count_token(t: &str) -> (n: usize)
    requires
        ends_with_seq(t@, "x"@),
    ensures
        n as int == count_token_value(t@),
{
    proof {
        reveal_strlit("x");
    }
    let len = t.unicode_len();
    let ghost ds = t@.drop_last();
    if len == 1 {
        return 0;
    }
    let mut acc: u128 = 0;
    let mut big = false;
    let mut j: usize = 0;
    proof {
        assert(t@.subrange(0, 0) =~= Seq::<char>::empty());
    }
    while j < len - 1
        invariant
            1 <= len == t@.len(),
            j <= len - 1,
            ds == t@.drop_last(),
            forall|q: int| 0 <= q < j ==> crate::chars::is_digit(t@[q]),
            !big ==> acc as int == digits_val(t@.subrange(0, j as int)) && acc <= usize::MAX,
            big ==> digits_val(t@.subrange(0, j as int)) > usize::MAX,
        decreases len - j,
    {
        let c = t.get_char(j);
        if !char_is_digit(c) {
            proof {
                assert(ds[j as int] == t@[j as int]);
                assert(!all_digits(ds));
            }
            return 0;
        }
        let d = digit_of_char(c);
        proof {
            assert(t@.subrange(0, j + 1).drop_last() =~= t@.subrange(0, j as int));
            assert(t@.subrange(0, j + 1).last() == t@[j as int]);
        }
        if !big {
            let next = acc * 10 + (d as u128);
            if next > (usize::MAX as u128) {
                big = true;
            }
            acc = next;
        } else {
            proof {
                let prev = digits_val(t@.subrange(0, j as int));
                assert(prev * 10 >= prev) by (nonlinear_arith)
                    requires
                        prev >= 0,
                ;
            }
        }
        j = j + 1;
    }
    proof {
        assert(t@.subrange(0, len - 1) =~= ds);
        assert forall|q: int| 0 <= q < ds.len() implies crate::chars::is_digit(ds[q]) by {
            assert(ds[q] == t@[q]);
        }
        assert(all_digits(ds));
    }
    if big {
        return 0;
    }
    acc as usize
}

/// Extract the level tag, filesystem tag, and device count of a header
/// line: the first token of each class, classified in that order.
fn parse_header(line: &str) -> (r: (String, String, usize))
    ensures
        r.0@ == header_level_tag(line@),
        r.1@ == header_fs_tag(line@),
        r.2 as int == header_device_count(line@),
{
    let toks = split_whitespace_vec(line);
    let ghost tv = tokens_of(line@);
    let mut level_tok: Option<String> = None;
    let mut fs_tok: Option<String> = None;
    let mut count_tok: Option<String> = None;
    let mut i: usize = 0;
    proof {
        assert(tv.subrange(0, tv.len() as int) =~= tv);
    }
    while i < toks.len()
        invariant
            i <= toks@.len(),
            toks.deep_view() == tv,
            tv.len() == toks@.len(),
            match level_tok {
                Some(t) => first_level_token(tv) == Some(t@),
                None => first_level_token(tv) == first_level_token(
                    tv.subrange(i as int, tv.len() as int),
                ),
            },
            match fs_tok {
                Some(t) => first_fs_token(tv) == Some(t@),
                None => first_fs_token(tv) == first_fs_token(
                    tv.subrange(i as int, tv.len() as int),
                ),
            },
            match count_tok {
                Some(t) => first_count_token(tv) == Some(t@) && ends_with_seq(t@, "x"@),
                None => first_count_token(tv) == first_count_token(
                    tv.subrange(i as int, tv.len() as int),
                ),
            },
        decreases toks@.len() - i,
    {
        let ghost suf = tv.subrange(i as int, tv.len() as int);
        proof {
            assert(suf[0] == tv[i as int]);
            assert(tv[i as int] == toks@[i as int]@);
            assert(suf.drop_first() =~= tv.subrange(i + 1, tv.len() as int));
        }
        let t = &toks[i];
        if str_starts_with(t.as_str(), "RAID") || str_starts_with(t.as_str(), "raid") {
            if level_tok.is_none() {
                level_tok = Some(t.clone());
            }
        } else if t.unicode_len() >= 3 && (str_contains(t.as_str(), "EXT") || str_contains(
            t.as_str(),
            "BTRFS",
        ) || str_contains(t.as_str(), "XFS") || str_contains(t.as_str(), "NTFS")
            || str_contains(t.as_str(), "FAT")) {
            if fs_tok.is_none() {
                fs_tok = Some(t.clone());
            }
        } else if str_ends_with(t.as_str(), "x") {
            if count_tok.is_none() {
                count_tok = Some(t.clone());
            }
        }
        i = i + 1;
    }
    proof {
        assert(tv.subrange(tv.len() as int, tv.len() as int) =~= Seq::<Seq<char>>::empty());
    }
    let level = match level_tok {
        Some(t) => t,
        None => String::from_str("Unknown"),
    };
    let fs = match fs_tok {
        Some(t) => t,
        None => String::from_str("Unknown"),
    };
    let count: usize = match count_tok {
        Some(t) => parse_count_token(t.as_str()),
        None => 0,
    };
    (level, fs, count)
}

/// The lines with the inclusive range `[s, e]` removed.
pub open spec fn remove_lines(lines: Seq<Seq<char>>, s: int, e: int) -> Seq<Seq<char>> {
    lines.subrange(0, s) + lines.subrange(e + 1, lines.len() as int)
}

/// A line holding only whitespace.
pub open spec fn is_blank(l: Seq<char>) -> bool {
    trim_spec(l).len() == 0
}

/// Executable blank test.
pub fn line_is_blank(l: &str) -> (r: bool)
    ensures
        r == is_blank(l@),
{
    let t = str_trim(l);
    t.as_str().is_empty()
}

/// Trailing blank lines collapsed: while the last two lines are both blank,
/// the last is dropped.
pub open spec fn collapse_trailing(ls: Seq<Seq<char>>) -> Seq<Seq<char>>
    decreases ls.len(),
{
    if ls.len() > 1 && is_blank(ls[ls.len() - 1]) && is_blank(ls[ls.len() - 2]) {
        collapse_trailing(ls.drop_last())
    } else {
        ls
    }
}

/// What collapsing leaves never ends in two blank lines.
pub proof fn lemma_collapse_single_trailing_blank(ls: Seq<Seq<char>>)
    ensures
        !(collapse_trailing(ls).len() > 1 && is_blank(
            collapse_trailing(ls)[collapse_trailing(ls).len() - 1],
        ) && is_blank(collapse_trailing(ls)[collapse_trailing(ls).len() - 2])),
    decreases ls.len(),
{
    if ls.len() > 1 && is_blank(ls[ls.len() - 1]) && is_blank(ls[ls.len() - 2]) {
        lemma_collapse_single_trailing_blank(ls.drop_last());
    }
}

/// Collapsing only drops lines from the end.
pub proof fn lemma_collapse_is_prefix(ls: Seq<Seq<char>>)
    ensures
        collapse_trailing(ls).len() <= ls.len(),
        forall|q: int|
            0 <= q < collapse_trailing(ls).len() ==> collapse_trailing(ls)[q] == ls[q],
    decreases ls.len(),
{
    if ls.len() > 1 && is_blank(ls[ls.len() - 1]) && is_blank(ls[ls.len() - 2]) {
        lemma_collapse_is_prefix(ls.drop_last());
        assert forall|q: int|
            0 <= q < collapse_trailing(ls).len() implies collapse_trailing(ls)[q] == ls[q] by {
            assert(collapse_trailing(ls)[q] == ls.drop_last()[q]);
        }
    }
}

/// Copy a line list with the inclusive range `[s, e]` removed.
pub fn remove_line_range(lines: &Vec<String>, s: usize, e: usize) -> (out: Vec<String>)
    requires
        s <= e < lines@.len(),
    ensures
        out.deep_view() == remove_lines(lines.deep_view(), s as int, e as int),
{
    let ghost lv = lines.deep_view();
    let n = lines.len();
    let mut out: Vec<String> = Vec::new();
    proof {
        assert(out.deep_view() =~= lv.subrange(0, 0));
    }
    let mut i: usize = 0;
    while i < s
        invariant
            i <= s,
            s <= e < lines@.len(),
            lv == lines.deep_view(),
            out.deep_view() == lv.subrange(0, i as int),
        decreases s - i,
    {
        let ghost before = out.deep_view();
        out.push(lines[i].clone());
        proof {
            assert(out.deep_view() =~= before.push(lv[i as int]));
            assert(before.push(lv[i as int]) =~= lv.subrange(0, i + 1));
        }
        i = i + 1;
    }
    proof {
        assert(e < n);
    }
    let mut j: usize = e + 1;
    proof {
        assert(lv.subrange(e + 1, e + 1) =~= Seq::<Seq<char>>::empty());
        assert(out.deep_view() =~= lv.subrange(0, s as int) + lv.subrange(e + 1, e + 1));
    }
    while j < n
        invariant
            e < j <= n,
            n == lines@.len(),
            s <= e < lines@.len(),
            lv == lines.deep_view(),
            out.deep_view() == lv.subrange(0, s as int) + lv.subrange(e + 1, j as int),
        decreases n - j,
    {
        let ghost before = out.deep_view();
        out.push(lines[j].clone());
        proof {
            assert(out.deep_view() =~= before.push(lv[j as int]));
            assert(before.push(lv[j as int]) =~= lv.subrange(0, s as int) + lv.subrange(
                e + 1,
                j + 1,
            ));
        }
        j = j + 1;
    }
    out
}

/// Drop trailing blank lines until at most one remains.
pub fn collapse_trailing_blanks(lines: &mut Vec<String>)
    ensures
        final(lines).deep_view() == collapse_trailing(old(lines).deep_view()),
{
    loop
        invariant
            collapse_trailing(old(lines).deep_view()) == collapse_trailing(lines.deep_view()),
        decreases lines@.len(),
    {
        let n = lines.len();
        if n > 1 && line_is_blank(lines[n - 1].as_str()) && line_is_blank(
            lines[n - 2].as_str(),
        ) {
            let ghost before = lines.deep_view();
            lines.pop();
            proof {
                assert(lines.deep_view() =~= before.drop_last());
            }
        } else {
            proof {
                let cur = lines.deep_view();
                assert(collapse_trailing(cur) == cur);
            }
            return ;
        }
    }
}

/// A scan that finds no start line finds no blocks; in particular a buffer
/// without start-marker lines parses to the empty block list.
pub proof fn lemma_parse_no_start_lines(lines: Seq<Seq<char>>, i: int)
    requires
        forall|q: int| i <= q < lines.len() ==> !is_block_start(lines[q]),
    ensures
        spec_parse_from(lines, i) == Seq::<RaidEntryView>::empty(),
    decreases lines.len() - i,
{
    if 0 <= i < lines.len() {
        lemma_parse_no_start_lines(lines, i + 1);
    }
}

/// An empty scan result means no start line from `i` on.
proof fn lemma_parse_empty_no_starts(lines: Seq<Seq<char>>, i: int)
    requires
        0 <= i,
        spec_parse_from(lines, i).len() == 0,
    ensures
        forall|q: int| i <= q < lines.len() ==> !is_block_start(lines[q]),
    decreases lines.len() - i,
{
    if i < lines.len() {
        assert(!is_block_start(lines[i]));
        lemma_parse_empty_no_starts(lines, i + 1);
    }
}

/// What a scan that found exactly one block says about the buffer: no start
/// line before the block, none after its resolved end, and the entry's
/// bounds are within the buffer.
proof fn lemma_parse_single(lines: Seq<Seq<char>>, i: int)
    requires
        0 <= i,
        spec_parse_from(lines, i).len() == 1,
    ensures
        ({
            let v = spec_parse_from(lines, i)[0];
            &&& i <= v.start_line < lines.len()
            &&& is_block_start(lines[v.start_line])
            &&& v.start_line <= v.end_line < lines.len()
            &&& forall|q: int| i <= q < v.start_line ==> !is_block_start(lines[q])
            &&& forall|q: int|
                v.end_line < q < lines.len() ==> !is_block_start(lines[q])
        }),
    decreases lines.len() - i,
{
    if i >= lines.len() {
        // impossible: the scan result would be empty
    } else if is_block_start(lines[i]) {
        let v = spec_parse_from(lines, i)[0];
        assert(v == entry_at(lines, i));
        lemma_first_end_offset(lines.subrange(i + 1, lines.len() as int));
        let e = block_end(lines, i);
        assert(i <= e < lines.len());
        let next = if e + 1 >= lines.len() {
            lines.len() as int
        } else {
            e + 1
        };
        assert(spec_parse_from(lines, next).len() == 0);
        lemma_parse_empty_no_starts(lines, next);
    } else {
        lemma_parse_single(lines, i + 1);
    }
}

/// Every entry a scan finds lies within the buffer, its start no later
/// than its end.
pub proof fn lemma_parse_entry_bounds(lines: Seq<Seq<char>>, i: int)
    requires
        0 <= i,
    ensures
        forall|k: int|
            0 <= k < spec_parse_from(lines, i).len() ==> {
                let v = #[trigger] spec_parse_from(lines, i)[k];
                i <= v.start_line <= v.end_line < lines.len()
            },
    decreases lines.len() - i,
{
    if i >= lines.len() {
    } else if is_block_start(lines[i]) {
        lemma_first_end_offset(lines.subrange(i + 1, lines.len() as int));
        let e = block_end(lines, i);
        let next = if e + 1 >= lines.len() {
            lines.len() as int
        } else {
            e + 1
        };
        lemma_parse_entry_bounds(lines, next);
        assert forall|k: int| 0 <= k < spec_parse_from(lines, i).len() implies {
            let v = #[trigger] spec_parse_from(lines, i)[k];
            i <= v.start_line <= v.end_line < lines.len()
        } by {
            if k > 0 {
                assert(spec_parse_from(lines, i)[k] == spec_parse_from(lines, next)[k - 1]);
            }
        }
    } else {
        lemma_parse_entry_bounds(lines, i + 1);
        assert forall|k: int| 0 <= k < spec_parse_from(lines, i).len() implies {
            let v = #[trigger] spec_parse_from(lines, i)[k];
            i <= v.start_line <= v.end_line < lines.len()
        } by {
            assert(spec_parse_from(lines, i)[k] == spec_parse_from(lines, i + 1)[k]);
        }
    }
}

/// Removing the only block of a buffer, then collapsing trailing blanks,
/// leaves a buffer in which a fresh parse finds no blocks and which does
/// not end in two blank lines.
pub proof fn lemma_remove_only_block(lines: Seq<Seq<char>>)
    requires
        spec_parse_from(lines, 0).len() == 1,
    ensures
        ({
            let v = spec_parse_from(lines, 0)[0];
            let out = collapse_trailing(remove_lines(lines, v.start_line, v.end_line));
            &&& spec_parse_from(out, 0) == Seq::<RaidEntryView>::empty()
            &&& !(out.len() > 1 && is_blank(out[out.len() - 1]) && is_blank(
                out[out.len() - 2],
            ))
        }),
{
    let v = spec_parse_from(lines, 0)[0];
    lemma_parse_single(lines, 0);
    let s = v.start_line;
    let e = v.end_line;
    let removed = remove_lines(lines, s, e);
    assert forall|q: int| 0 <= q < removed.len() implies !is_block_start(removed[q]) by {
        if q < s {
            assert(removed[q] == lines[q]);
        } else {
            assert(removed[q] == lines[e + 1 + (q - s)]);
        }
    }
    let out = collapse_trailing(removed);
    lemma_collapse_is_prefix(removed);
    assert forall|q: int| 0 <= q < out.len() implies !is_block_start(out[q]) by {
        assert(out[q] == removed[q]);
    }
    lemma_parse_no_start_lines(out, 0);
    lemma_collapse_single_trailing_blank(removed);
}

/// Removing the only block of a buffer, collapsing trailing blanks, and
/// writing the lines back with newlines yields a buffer in which a fresh
/// parse finds no blocks, and whose lines do not end in two blanks.  A
/// line that ends in a bare carriage return would be re-split differently
/// on the way back, so such buffers are left out.
pub proof fn lemma_remove_only_block_roundtrip(text: Seq<char>)
    requires
        spec_parse_from(lines_of(text), 0).len() == 1,
        forall|k: int|
            0 <= k < lines_of(text).len() ==> ((#[trigger] lines_of(text)[k]).len() == 0
                || lines_of(text)[k][lines_of(text)[k].len() - 1] != '\r'),
    ensures
        ({
            let v = spec_parse_from(lines_of(text), 0)[0];
            let out = collapse_trailing(
                remove_lines(lines_of(text), v.start_line, v.end_line),
            );
            let relisted = lines_of(join_lines_spec(out));
            &&& spec_parse_from(relisted, 0) == Seq::<RaidEntryView>::empty()
            &&& !(relisted.len() > 1 && is_blank(relisted[relisted.len() - 1]) && is_blank(
                relisted[relisted.len() - 2],
            ))
        }),
{
    let lines = lines_of(text);
    let v = spec_parse_from(lines, 0)[0];
    lemma_parse_single(lines, 0);
    let s = v.start_line;
    let e = v.end_line;
    let removed = remove_lines(lines, s, e);
    // Every remaining line is a line of the original buffer, so none of
    // them starts a block.
    assert forall|q: int| 0 <= q < removed.len() implies !is_block_start(removed[q]) by {
        if q < s {
            assert(removed[q] == lines[q]);
        } else {
            assert(removed[q] == lines[e + 1 + (q - s)]);
        }
    }
    let out = collapse_trailing(removed);
    lemma_collapse_is_prefix(removed);
    assert forall|q: int| 0 <= q < out.len() implies !is_block_start(out[q]) by {
        assert(out[q] == removed[q]);
    }
    // The remaining lines pass through the joiner and the splitter
    // unchanged, but for one absorbed trailing empty line.
    lemma_lines_acc_no_newline(text, Seq::empty());
    assert forall|k: int|
        0 <= k < out.len() implies no_newline(#[trigger] out[k]) && (out[k].len() == 0
            || out[k][out[k].len() - 1] != '\r') by {
        assert(out[k] == removed[k]);
        if k < s {
            assert(removed[k] == lines[k]);
            assert(no_newline(lines_of(text)[k]));
        } else {
            assert(removed[k] == lines[e + 1 + (k - s)]);
            assert(no_newline(lines_of(text)[e + 1 + (k - s)]));
        }
    }
    lemma_lines_of_join(out);
    let relisted = lines_of(join_lines_spec(out));
    assert(is_blank(Seq::<char>::empty()));
    if out.len() > 0 && out[out.len() - 1].len() == 0 {
        assert(relisted == out.drop_last());
        assert forall|q: int| 0 <= q < relisted.len() implies !is_block_start(relisted[q]) by {
            assert(relisted[q] == out[q]);
        }
        lemma_collapse_single_trailing_blank(removed);
        if relisted.len() > 1 {
            assert(relisted[relisted.len() - 1] == out[out.len() - 2]);
            assert(!is_blank(out[out.len() - 2]));
        }
    } else {
        assert(relisted == out);
        lemma_collapse_single_trailing_blank(removed);
    }
    lemma_parse_no_start_lines(relisted, 0);
}
pub fn parse_entry_list(lines: &Vec<String>) -> (entries: Vec<RaidEntry>)
    ensures
        entries.deep_view() == spec_parse_from(lines.deep_view(), 0),
{
    let ghost lv = lines.deep_view();
    let n = lines.len();
    let mut entries: Vec<RaidEntry> = Vec::new();
    proof {
        assert(entries.deep_view() =~= Seq::<RaidEntryView>::empty());
        assert(Seq::<RaidEntryView>::empty() + spec_parse_from(lv, 0) =~= spec_parse_from(
            lv,
            0,
        ));
    }
    let mut i: usize = 0;
    while i < n
        invariant
            i <= n,
            n == lines@.len(),
            lv == lines.deep_view(),
            lv.len() == n,
            spec_parse_from(lv, 0) == entries.deep_view() + spec_parse_from(lv, i as int),
        decreases n - i,
    {
        proof {
            assert(lv[i as int] == lines@[i as int]@);
        }
        if line_is_block_start(lines[i].as_str()) {
            // Resolve the block's end line.
            let mut e: usize = i;
            let mut found = false;
            let mut j: usize = i + 1;
            while j < n && !found
                invariant
                    i < n,
                    i + 1 <= j <= n,
                    n == lines@.len(),
                    lv == lines.deep_view(),
                    lv.len() == n,
                    !found ==> e == i && (forall|q: int|
                        i < q < j ==> !is_block_end(lv[q])),
                    found ==> i < e < n && e < j && is_block_end(lv[e as int]) && (forall|
                        q: int,
                    |
                        i < q < e ==> !is_block_end(lv[q])),
                decreases n - j,
            {
                proof {
                    assert(lv[j as int] == lines@[j as int]@);
                }
                if line_is_block_end(lines[j].as_str()) {
                    e = j;
                    found = true;
                }
                j = j + 1;
            }
            proof {
                let suffix = lv.subrange(i + 1, n as int);
                lemma_first_end_offset(suffix);
                let r = first_end_offset(suffix);
                assert(forall|q: int|
                    0 <= q < suffix.len() ==> suffix[q] == lv[i + 1 + q]);
                if found {
                    if r == -1 {
                        assert(!is_block_end(suffix[e - i - 1]));
                    }
                    assert(r >= 0);
                    if r < e - i - 1 {
                        assert(is_block_end(lv[i + 1 + r]));
                    }
                    if r > e - i - 1 {
                        assert(!is_block_end(suffix[e - i - 1]));
                    }
                    assert(r == e - i - 1);
                    assert(block_end(lv, i as int) == e as int);
                } else {
                    if r >= 0 {
                        assert(is_block_end(lv[i + 1 + r]));
                    }
                    assert(r == -1);
                    assert(block_end(lv, i as int) == i as int);
                }
            }
            let header = parse_header(lines[i].as_str());
            let entry = RaidEntry {
                start_line: i,
                end_line: e,
                raid_level: header.0,
                filesystem: header.1,
                device_count: header.2,
                header_comment: lines[i].clone(),
            };
            let ghost before = entries.deep_view();
            proof {
                assert(entry@ == entry_at(lv, i as int));
            }
            entries.push(entry);
            let next = e + 1;
            proof {
                assert(entries.deep_view() =~= before.push(entry_at(lv, i as int)));
                assert(before + (seq![entry_at(lv, i as int)] + spec_parse_from(
                    lv,
                    next as int,
                )) =~= before.push(entry_at(lv, i as int)) + spec_parse_from(lv, next as int));
            }
            i = next;
        } else {
            i = i + 1;
        }
    }
    proof {
        assert(entries.deep_view() + Seq::<RaidEntryView>::empty() =~= entries.deep_view());
    }
    entries
}

} // verus!
