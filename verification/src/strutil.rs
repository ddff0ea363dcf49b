//! Verified text utilities: substring search, prefix and suffix tests,
//! trimming, whitespace tokenization, and line splitting/joining with the
//! usual text-file conventions (a line ends at a newline, an optional
//! carriage return before it is dropped, the final newline is optional).

use vstd::prelude::*;
use vstd::string::*;
use crate::chars::is_space;
use crate::chars::char_is_space;

verus! {

/// `pat` occurs in `s` at position `i`.
pub open spec fn match_at(s: Seq<char>, pat: Seq<char>, i: int) -> bool {
    &&& 0 <= i
    &&& i + pat.len() <= s.len()
    &&& s.subrange(i, i + pat.len() as int) == pat
}

/// `pat` occurs somewhere in `s`.
pub open spec fn contains_seq(s: Seq<char>, pat: Seq<char>) -> bool {
    exists|i: int| match_at(s, pat, i)
}

/// `s` begins with `pat`.
pub open spec fn starts_with_seq(s: Seq<char>, pat: Seq<char>) -> bool {
    pat.len() <= s.len() && s.subrange(0, pat.len() as int) == pat
}

/// `s` ends with `pat`.
pub open spec fn ends_with_seq(s: Seq<char>, pat: Seq<char>) -> bool {
    pat.len() <= s.len() && s.subrange(s.len() - pat.len(), s.len() as int) == pat
}

/// Compare `pat` against the characters of `s` starting at `i`.
pub fn str_match_at(s: &str, pat: &str, i: usize) -> (r: bool)
    requires
        i + pat@.len() <= s@.len(),
    ensures
        r == match_at(s@, pat@, i as int),
{
    let n = s.unicode_len();
    let m = pat.unicode_len();
    let mut k: usize = 0;
    let mut ok = true;
    while k < m
        invariant
            k <= m,
            m == pat@.len(),
            n == s@.len(),
            i + m <= n,
            ok <==> (forall|j: int| 0 <= j < k ==> s@[i + j] == pat@[j]),
        decreases m - k,
    {
        if s.get_char(i + k) != pat.get_char(k) {
            ok = false;
        }
        k = k + 1;
    }
    proof {
        if ok {
            assert(s@.subrange(i as int, i + m) =~= pat@);
        } else {
            if s@.subrange(i as int, i + m) == pat@ {
                assert forall|j: int| 0 <= j < m implies s@[i + j] == pat@[j] by {
                    assert(s@[i + j] == s@.subrange(i as int, i + m)[j]);
                }
            }
        }
    }
    ok
}

/// Substring search; reports whether `pat` occurs anywhere in `s`.
pub fn str_contains(s: &str, pat: &str) -> (r: bool)
    ensures
        r == contains_seq(s@, pat@),
{
    let n = s.unicode_len();
    let m = pat.unicode_len();
    if m > n {
        return false;
    }
    if m == 0 {
        proof {
            assert(s@.subrange(0, 0) =~= pat@);
            assert(match_at(s@, pat@, 0));
        }
        return true;
    }
    let mut i: usize = 0;
    while i <= n - m
        invariant
            0 < m <= n,
            n == s@.len(),
            m == pat@.len(),
            i <= n - m + 1,
            forall|j: int| 0 <= j < i ==> !match_at(s@, pat@, j),
        decreases n - i,
    {
        if str_match_at(s, pat, i) {
            return true;
        }
        i = i + 1;
    }
    proof {
        assert forall|j: int| !match_at(s@, pat@, j) by {
            if match_at(s@, pat@, j) {
                assert(0 <= j < i);
            }
        }
    }
    false
}

/// Prefix test.
pub fn str_starts_with(s: &str, pat: &str) -> (r: bool)
    ensures
        r == starts_with_seq(s@, pat@),
{
    let n = s.unicode_len();
    let m = pat.unicode_len();
    if m > n {
        return false;
    }
    let r = str_match_at(s, pat, 0);
    proof {
        assert(match_at(s@, pat@, 0) == starts_with_seq(s@, pat@));
    }
    r
}

/// Suffix test.
pub fn str_ends_with(s: &str, pat: &str) -> (r: bool)
    ensures
        r == ends_with_seq(s@, pat@),
{
    let n = s.unicode_len();
    let m = pat.unicode_len();
    if m > n {
        return false;
    }
    let r = str_match_at(s, pat, n - m);
    proof {
        assert(match_at(s@, pat@, n - m) == ends_with_seq(s@, pat@));
    }
    r
}

/// Exact string equality.
pub fn str_eq(a: &str, b: &str) -> (r: bool)
    ensures
        r == (a@ == b@),
{
    let n = a.unicode_len();
    let m = b.unicode_len();
    if n != m {
        return false;
    }
    if n == 0 {
        proof {
            assert(a@ =~= b@);
        }
        return true;
    }
    let r = str_match_at(a, b, 0);
    proof {
        if match_at(a@, b@, 0) {
            assert(a@.subrange(0, m as int) =~= a@);
        }
        if a@ == b@ {
            assert(a@.subrange(0, m as int) =~= b@);
        }
    }
    r
}

/// Position of the first occurrence of `c` in `s`, if any.
pub fn str_find_char(s: &str, c: char) -> (r: Option<usize>)
    ensures
        match r {
            Some(i) => i < s@.len() && s@[i as int] == c && (forall|j: int|
                0 <= j < i ==> s@[j] != c),
            None => forall|j: int| 0 <= j < s@.len() ==> s@[j] != c,
        },
{
    let n = s.unicode_len();
    let mut i: usize = 0;
    while i < n
        invariant
            n == s@.len(),
            i <= n,
            forall|j: int| 0 <= j < i ==> s@[j] != c,
        decreases n - i,
    {
        if s.get_char(i) == c {
            return Some(i);
        }
        i = i + 1;
    }
    None
}

/// Position of the last occurrence of `c` in `s`, if any.
pub fn str_rfind_char(s: &str, c: char) -> (r: Option<usize>)
    ensures
        match r {
            Some(i) => i < s@.len() && s@[i as int] == c && (forall|j: int|
                i < j < s@.len() ==> s@[j] != c),
            None => forall|j: int| 0 <= j < s@.len() ==> s@[j] != c,
        },
{
    let n = s.unicode_len();
    let mut i: usize = n;
    while i > 0
        invariant
            n == s@.len(),
            i <= n,
            forall|j: int| i <= j < n ==> s@[j] != c,
        decreases i,
    {
        i = i - 1;
        if s.get_char(i) == c {
            return Some(i);
        }
    }
    None
}

/// `s` with leading whitespace removed.
pub open spec fn trim_start_spec(s: Seq<char>) -> Seq<char>
    decreases s.len(),
{
    if s.len() > 0 && is_space(s[0]) {
        trim_start_spec(s.drop_first())
    } else {
        s
    }
}

/// `s` with trailing whitespace removed.
pub open spec fn trim_end_spec(s: Seq<char>) -> Seq<char>
    decreases s.len(),
{
    if s.len() > 0 && is_space(s.last()) {
        trim_end_spec(s.drop_last())
    } else {
        s
    }
}

/// `s` with surrounding whitespace removed.
pub open spec fn trim_spec(s: Seq<char>) -> Seq<char> {
    trim_end_spec(trim_start_spec(s))
}

/// Copy of `s` with surrounding whitespace removed.
pub fn str_trim(s: &str) -> (r: String)
    ensures
        r@ == trim_spec(s@),
{
    let n = s.unicode_len();
    proof {
        assert(s@.subrange(0, n as int) =~= s@);
    }
    let mut start: usize = 0;
    while start < n && char_is_space(s.get_char(start))
        invariant
            n == s@.len(),
            start <= n,
            trim_start_spec(s@) == trim_start_spec(s@.subrange(start as int, n as int)),
        decreases n - start,
    {
        proof {
            let suf = s@.subrange(start as int, n as int);
            assert(suf.drop_first() =~= s@.subrange(start + 1, n as int));
        }
        start = start + 1;
    }
    proof {
        let suf = s@.subrange(start as int, n as int);
        assert(trim_start_spec(suf) == suf);
        assert(s@.subrange(start as int, n as int) =~= trim_start_spec(s@));
    }
    let mut end: usize = n;
    while end > start && char_is_space(s.get_char(end - 1))
        invariant
            n == s@.len(),
            start <= end <= n,
            trim_start_spec(s@) == s@.subrange(start as int, n as int),
            trim_end_spec(s@.subrange(start as int, n as int)) == trim_end_spec(
                s@.subrange(start as int, end as int),
            ),
        decreases end,
    {
        proof {
            let cur = s@.subrange(start as int, end as int);
            assert(cur.last() == s@[end - 1]);
            assert(cur.drop_last() =~= s@.subrange(start as int, end - 1));
        }
        end = end - 1;
    }
    proof {
        let cur = s@.subrange(start as int, end as int);
        assert(trim_end_spec(cur) == cur);
    }
    String::from_str(s.substring_char(start, end))
}

/// Fold of a whitespace tokenizer: `cur` is the token being read, the result
/// is every maximal run of non-whitespace characters in `cur + s`, in order.
pub open spec fn tokens_acc(s: Seq<char>, cur: Seq<char>) -> Seq<Seq<char>>
    decreases s.len(),
{
    if s.len() == 0 {
        if cur.len() > 0 {
            seq![cur]
        } else {
            Seq::empty()
        }
    } else if is_space(s[0]) {
        if cur.len() > 0 {
            seq![cur] + tokens_acc(s.drop_first(), Seq::empty())
        } else {
            tokens_acc(s.drop_first(), Seq::empty())
        }
    } else {
        tokens_acc(s.drop_first(), cur.push(s[0]))
    }
}

/// The whitespace-separated tokens of `s`, in order.
pub open spec fn tokens_of(s: Seq<char>) -> Seq<Seq<char>> {
    tokens_acc(s, Seq::empty())
}

/// Split `s` into whitespace-separated tokens.
pub fn split_whitespace_vec(s: &str) -> (toks: Vec<String>)
    ensures
        toks.deep_view() == tokens_of(s@),
{
    let n = s.unicode_len();
    proof {
        assert(s@.subrange(0, n as int) =~= s@);
        assert(Seq::<Seq<char>>::empty() + tokens_of(s@) =~= tokens_of(s@));
    }
    let mut toks: Vec<String> = Vec::new();
    let mut cur = String::new();
    proof {
        assert(toks.deep_view() =~= Seq::<Seq<char>>::empty());
    }
    let mut i: usize = 0;
    while i < n
        invariant
            n == s@.len(),
            i <= n,
            tokens_of(s@) == toks.deep_view() + tokens_acc(
                s@.subrange(i as int, n as int),
                cur@,
            ),
        decreases n - i,
    {
        let ghost suf = s@.subrange(i as int, n as int);
        proof {
            assert(suf.drop_first() =~= s@.subrange(i + 1, n as int));
        }
        let c = s.get_char(i);
        if char_is_space(c) {
            if cur.unicode_len() > 0 {
                let done = cur;
                cur = String::new();
                let ghost toks0 = toks.deep_view();
                toks.push(done);
                proof {
                    assert(toks.deep_view() =~= toks0.push(done@));
                    assert(toks0 + (seq![done@] + tokens_acc(suf.drop_first(), Seq::empty()))
                        =~= toks0.push(done@) + tokens_acc(suf.drop_first(), Seq::empty()));
                }
            } else {
                proof {
                    assert(cur@ =~= Seq::<char>::empty());
                }
            }
        } else {
            let ghost cur0 = cur@;
            cur.append(s.substring_char(i, i + 1));
            proof {
                assert(s@.subrange(i as int, i + 1) =~= seq![s@[i as int]]);
                assert(cur@ =~= cur0.push(s@[i as int]));
            }
        }
        i = i + 1;
    }
    proof {
        assert(s@.subrange(n as int, n as int) =~= Seq::<char>::empty());
    }
    let ghost toks1 = toks.deep_view();
    if cur.unicode_len() > 0 {
        toks.push(cur);
        proof {
            assert(toks.deep_view() =~= toks1.push(cur@));
            assert(toks1 + seq![cur@] =~= toks1.push(cur@));
        }
    } else {
        proof {
            assert(toks1 + Seq::<Seq<char>>::empty() =~= toks1);
        }
    }
    toks
}

/// A line's optional trailing carriage return, removed.
pub open spec fn strip_cr(l: Seq<char>) -> Seq<char> {
    if l.len() > 0 && l.last() == '\r' {
        l.drop_last()
    } else {
        l
    }
}

/// Fold of the line splitter: `cur` is the line being read.
pub open spec fn lines_acc(s: Seq<char>, cur: Seq<char>) -> Seq<Seq<char>>
    decreases s.len(),
{
    if s.len() == 0 {
        if cur.len() > 0 {
            seq![cur]
        } else {
            Seq::empty()
        }
    } else if s[0] == '\n' {
        seq![strip_cr(cur)] + lines_acc(s.drop_first(), Seq::empty())
    } else {
        lines_acc(s.drop_first(), cur.push(s[0]))
    }
}

/// The lines of `s`: split at newlines, a carriage return before a newline is
/// dropped, and a final line without a newline is kept as written.
pub open spec fn lines_of(s: Seq<char>) -> Seq<Seq<char>> {
    lines_acc(s, Seq::empty())
}

/// Split `s` into its lines.
pub fn split_lines(s: &str) -> (lines: Vec<String>)
    ensures
        lines.deep_view() == lines_of(s@),
{
    let n = s.unicode_len();
    proof {
        assert(s@.subrange(0, n as int) =~= s@);
        assert(Seq::<Seq<char>>::empty() + lines_of(s@) =~= lines_of(s@));
    }
    let mut lines: Vec<String> = Vec::new();
    let mut cur = String::new();
    proof {
        assert(lines.deep_view() =~= Seq::<Seq<char>>::empty());
    }
    let mut i: usize = 0;
    while i < n
        invariant
            n == s@.len(),
            i <= n,
            lines_of(s@) == lines.deep_view() + lines_acc(
                s@.subrange(i as int, n as int),
                cur@,
            ),
        decreases n - i,
    {
        let ghost suf = s@.subrange(i as int, n as int);
        proof {
            assert(suf.drop_first() =~= s@.subrange(i + 1, n as int));
        }
        let c = s.get_char(i);
        if c == '\n' {
            let mut done = cur;
            cur = String::new();
            let ghost done0 = done@;
            let dn = done.unicode_len();
            let has_cr = dn > 0 && done.as_str().get_char(dn - 1) == '\r';
            if has_cr {
                let stripped = String::from_str(done.as_str().substring_char(0, dn - 1));
                proof {
                    assert(stripped@ =~= strip_cr(done@));
                }
                done = stripped;
            }
            proof {
                assert(done@ == strip_cr(done0));
            }
            let ghost lines0 = lines.deep_view();
            lines.push(done);
            proof {
                assert(lines.deep_view() =~= lines0.push(done@));
                assert(lines0 + (seq![done@] + lines_acc(suf.drop_first(), Seq::empty()))
                    =~= lines0.push(done@) + lines_acc(suf.drop_first(), Seq::empty()));
            }
        } else {
            let ghost cur0 = cur@;
            cur.append(s.substring_char(i, i + 1));
            proof {
                assert(s@.subrange(i as int, i + 1) =~= seq![s@[i as int]]);
                assert(cur@ =~= cur0.push(s@[i as int]));
            }
        }
        i = i + 1;
    }
    proof {
        assert(s@.subrange(n as int, n as int) =~= Seq::<char>::empty());
    }
    let ghost lines1 = lines.deep_view();
    if cur.unicode_len() > 0 {
        lines.push(cur);
        proof {
            assert(lines.deep_view() =~= lines1.push(cur@));
            assert(lines1 + seq![cur@] =~= lines1.push(cur@));
        }
    } else {
        proof {
            assert(lines1 + Seq::<Seq<char>>::empty() =~= lines1);
        }
    }
    lines
}

/// No newline character inside the text.
pub open spec fn no_newline(l: Seq<char>) -> bool {
    forall|i: int| 0 <= i < l.len() ==> l[i] != '\n'
}

/// Every line the splitter produces is free of newlines.
pub proof fn lemma_lines_acc_no_newline(s: Seq<char>, cur: Seq<char>)
    requires
        no_newline(cur),
    ensures
        forall|k: int| 0 <= k < lines_acc(s, cur).len() ==> no_newline(#[trigger] lines_acc(s, cur)[k]),
    decreases s.len(),
{
    if s.len() == 0 {
        assert forall|k: int|
            0 <= k < lines_acc(s, cur).len() implies no_newline(#[trigger] lines_acc(s, cur)[k]) by {
            assert(lines_acc(s, cur)[k] == cur);
        }
    } else if s[0] == '\n' {
        assert(no_newline(strip_cr(cur))) by {
            if cur.len() > 0 && cur.last() == '\r' {
                assert(forall|i: int|
                    0 <= i < cur.drop_last().len() ==> cur.drop_last()[i] == cur[i]);
            }
        }
        lemma_lines_acc_no_newline(s.drop_first(), Seq::empty());
        assert forall|k: int|
            0 <= k < lines_acc(s, cur).len() implies no_newline(#[trigger] lines_acc(s, cur)[k]) by {
            if k > 0 {
                assert(lines_acc(s, cur)[k] == lines_acc(s.drop_first(), Seq::empty())[k - 1]);
            } else {
                assert(lines_acc(s, cur)[0] == strip_cr(cur));
            }
        }
    } else {
        assert(no_newline(cur.push(s[0]))) by {
            assert(forall|i: int|
                0 <= i < cur.len() ==> cur.push(s[0])[i] == cur[i]);
        }
        lemma_lines_acc_no_newline(s.drop_first(), cur.push(s[0]));
        assert forall|k: int|
            0 <= k < lines_acc(s, cur).len() implies no_newline(#[trigger] lines_acc(s, cur)[k]) by {
            assert(lines_acc(s, cur)[k] == lines_acc(s.drop_first(), cur.push(s[0]))[k]);
        }
    }
}

/// Splitting consumes a newline-free prefix into the line being read.
pub proof fn lemma_lines_acc_shift(p: Seq<char>, s: Seq<char>, cur: Seq<char>)
    requires
        no_newline(p),
    ensures
        lines_acc(p + s, cur) == lines_acc(s, cur + p),
    decreases p.len(),
{
    if p.len() == 0 {
        assert(p + s =~= s);
        assert(cur + p =~= cur);
    } else {
        assert((p + s)[0] == p[0]);
        assert((p + s).drop_first() =~= p.drop_first() + s);
        assert(no_newline(p.drop_first())) by {
            assert(forall|i: int|
                0 <= i < p.drop_first().len() ==> p.drop_first()[i] == p[i + 1]);
        }
        lemma_lines_acc_shift(p.drop_first(), s, cur.push(p[0]));
        assert(cur.push(p[0]) + p.drop_first() =~= cur + p);
    }
}

/// Splitting what the joiner wrote gives the lines back, except that one
/// trailing empty line is absorbed by the missing final newline.  Holds of
/// lines without newlines inside and without a trailing carriage return.
pub proof fn lemma_lines_of_join(ls: Seq<Seq<char>>)
    requires
        forall|k: int| 0 <= k < ls.len() ==> no_newline(#[trigger] ls[k]),
        forall|k: int|
            0 <= k < ls.len() ==> ((#[trigger] ls[k]).len() == 0 || ls[k][ls[k].len() - 1]
                != '\r'),
    ensures
        lines_of(join_lines_spec(ls)) == if ls.len() > 0 && ls[ls.len() - 1].len() == 0 {
            ls.drop_last()
        } else {
            ls
        },
    decreases ls.len(),
{
    if ls.len() == 0 {
    } else if ls.len() == 1 {
        lemma_lines_acc_shift(ls[0], Seq::empty(), Seq::empty());
        assert(ls[0] + Seq::<char>::empty() =~= ls[0]);
        assert(Seq::<char>::empty() + ls[0] =~= ls[0]);
        assert(lines_of(ls[0]) == lines_acc(Seq::empty(), ls[0]));
        if ls[0].len() == 0 {
            assert(lines_of(join_lines_spec(ls)) =~= ls.drop_last());
        } else {
            assert(lines_of(join_lines_spec(ls)) =~= ls);
        }
    } else {
        let rest = ls.drop_first();
        let tail = seq!['\n'] + join_lines_spec(rest);
        assert(join_lines_spec(ls) == ls[0].push('\n') + join_lines_spec(rest));
        assert(ls[0].push('\n') + join_lines_spec(rest) =~= ls[0] + tail);
        lemma_lines_acc_shift(ls[0], tail, Seq::empty());
        assert(Seq::<char>::empty() + ls[0] =~= ls[0]);
        assert(tail[0] == '\n');
        assert(tail.drop_first() =~= join_lines_spec(rest));
        assert(lines_acc(tail, ls[0]) == seq![strip_cr(ls[0])] + lines_acc(
            join_lines_spec(rest),
            Seq::empty(),
        ));
        assert(strip_cr(ls[0]) == ls[0]);
        assert forall|k: int| 0 <= k < rest.len() implies no_newline(#[trigger] rest[k])
            && (rest[k].len() == 0 || rest[k][rest[k].len() - 1] != '\r') by {
            assert(rest[k] == ls[k + 1]);
        }
        lemma_lines_of_join(rest);
        assert(rest[rest.len() - 1] == ls[ls.len() - 1]);
        if ls[ls.len() - 1].len() == 0 {
            assert(seq![ls[0]] + rest.drop_last() =~= ls.drop_last());
            assert(lines_of(join_lines_spec(ls)) =~= ls.drop_last());
        } else {
            assert(seq![ls[0]] + rest =~= ls);
            assert(lines_of(join_lines_spec(ls)) =~= ls);
        }
    }
}

/// The lines joined with single newlines, no trailing newline.
pub open spec fn join_lines_spec(ls: Seq<Seq<char>>) -> Seq<char>
    decreases ls.len(),
{
    if ls.len() == 0 {
        Seq::empty()
    } else if ls.len() == 1 {
        ls[0]
    } else {
        ls[0].push('\n') + join_lines_spec(ls.drop_first())
    }
}

/// Appending one more line appends a newline and the line.
pub proof fn lemma_join_snoc(ls: Seq<Seq<char>>, x: Seq<char>)
    requires
        ls.len() >= 1,
    ensures
        join_lines_spec(ls.push(x)) == join_lines_spec(ls) + seq!['\n'] + x,
    decreases ls.len(),
{
    if ls.len() == 1 {
        assert(ls.push(x).drop_first() =~= seq![x]);
        assert(join_lines_spec(seq![x]) == x);
        assert(join_lines_spec(ls.push(x)) == ls[0].push('\n') + x);
        assert(join_lines_spec(ls) == ls[0]);
        assert(ls[0].push('\n') + x =~= ls[0] + seq!['\n'] + x);
    } else {
        assert(ls.push(x).drop_first() =~= ls.drop_first().push(x));
        lemma_join_snoc(ls.drop_first(), x);
        assert(join_lines_spec(ls.push(x)) == ls[0].push('\n') + (join_lines_spec(
            ls.drop_first(),
        ) + seq!['\n'] + x));
        assert(join_lines_spec(ls) == ls[0].push('\n') + join_lines_spec(ls.drop_first()));
        assert(ls[0].push('\n') + (join_lines_spec(ls.drop_first()) + seq!['\n'] + x) =~= (ls[0].push(
            '\n',
        ) + join_lines_spec(ls.drop_first())) + seq!['\n'] + x);
    }
}

/// Join lines with single newlines.
pub fn join_lines(lines: &Vec<String>) -> (r: String)
    ensures
        r@ == join_lines_spec(lines.deep_view()),
{
    let mut r = String::new();
    let mut i: usize = 0;
    while i < lines.len()
        invariant
            i <= lines@.len(),
            r@ == join_lines_spec(lines.deep_view().subrange(0, i as int)),
        decreases lines@.len() - i,
    {
        let ghost prefix = lines.deep_view().subrange(0, i as int);
        if i > 0 {
            r.append("\n");
            proof {
                reveal_strlit("\n");
            }
        }
        r.append(lines[i].as_str());
        proof {
            let next = lines.deep_view().subrange(0, i + 1);
            assert(next =~= prefix.push(lines.deep_view()[i as int]));
            if i > 0 {
                lemma_join_snoc(prefix, lines.deep_view()[i as int]);
                assert(r@ =~= join_lines_spec(next));
            } else {
                assert(next.len() == 1);
                assert(r@ =~= join_lines_spec(next));
            }
        }
        i = i + 1;
    }
    proof {
        assert(lines.deep_view().subrange(0, lines@.len() as int) =~= lines.deep_view());
    }
    r
}

/// The parts joined with single spaces.
pub open spec fn join_spaces_spec(ls: Seq<Seq<char>>) -> Seq<char>
    decreases ls.len(),
{
    if ls.len() == 0 {
        Seq::empty()
    } else if ls.len() == 1 {
        ls[0]
    } else {
        ls[0].push(' ') + join_spaces_spec(ls.drop_first())
    }
}

/// Appending one more part appends a space and the part.
pub proof fn lemma_join_spaces_snoc(ls: Seq<Seq<char>>, x: Seq<char>)
    requires
        ls.len() >= 1,
    ensures
        join_spaces_spec(ls.push(x)) == join_spaces_spec(ls) + seq![' '] + x,
    decreases ls.len(),
{
    if ls.len() == 1 {
        assert(ls.push(x).drop_first() =~= seq![x]);
        assert(join_spaces_spec(seq![x]) == x);
        assert(join_spaces_spec(ls.push(x)) == ls[0].push(' ') + x);
        assert(join_spaces_spec(ls) == ls[0]);
        assert(ls[0].push(' ') + x =~= ls[0] + seq![' '] + x);
    } else {
        assert(ls.push(x).drop_first() =~= ls.drop_first().push(x));
        lemma_join_spaces_snoc(ls.drop_first(), x);
        assert(join_spaces_spec(ls.push(x)) == ls[0].push(' ') + (join_spaces_spec(
            ls.drop_first(),
        ) + seq![' '] + x));
        assert(join_spaces_spec(ls) == ls[0].push(' ') + join_spaces_spec(ls.drop_first()));
        assert(ls[0].push(' ') + (join_spaces_spec(ls.drop_first()) + seq![' '] + x) =~= (ls[0]
            .push(' ') + join_spaces_spec(ls.drop_first())) + seq![' '] + x);
    }
}

/// Join parts with single spaces.
pub fn join_spaces(parts: &Vec<String>) -> (r: String)
    ensures
        r@ == join_spaces_spec(parts.deep_view()),
{
    let mut r = String::new();
    let mut i: usize = 0;
    while i < parts.len()
        invariant
            i <= parts@.len(),
            r@ == join_spaces_spec(parts.deep_view().subrange(0, i as int)),
        decreases parts@.len() - i,
    {
        let ghost prefix = parts.deep_view().subrange(0, i as int);
        if i > 0 {
            r.append(" ");
            proof {
                reveal_strlit(" ");
            }
        }
        r.append(parts[i].as_str());
        proof {
            let next = parts.deep_view().subrange(0, i + 1);
            assert(next =~= prefix.push(parts.deep_view()[i as int]));
            if i > 0 {
                lemma_join_spaces_snoc(prefix, parts.deep_view()[i as int]);
                assert(r@ =~= join_spaces_spec(next));
            } else {
                assert(next.len() == 1);
                assert(r@ =~= join_spaces_spec(next));
            }
        }
        i = i + 1;
    }
    proof {
        assert(parts.deep_view().subrange(0, parts@.len() as int) =~= parts.deep_view());
    }
    r
}

/// ASCII-lowercased character: the twenty-six capitals fold, everything
/// else is itself.
pub open spec fn ascii_lower_char(c: char) -> char {
    if c == 'A' {
        'a'
    } else if c == 'B' {
        'b'
    } else if c == 'C' {
        'c'
    } else if c == 'D' {
        'd'
    } else if c == 'E' {
        'e'
    } else if c == 'F' {
        'f'
    } else if c == 'G' {
        'g'
    } else if c == 'H' {
        'h'
    } else if c == 'I' {
        'i'
    } else if c == 'J' {
        'j'
    } else if c == 'K' {
        'k'
    } else if c == 'L' {
        'l'
    } else if c == 'M' {
        'm'
    } else if c == 'N' {
        'n'
    } else if c == 'O' {
        'o'
    } else if c == 'P' {
        'p'
    } else if c == 'Q' {
        'q'
    } else if c == 'R' {
        'r'
    } else if c == 'S' {
        's'
    } else if c == 'T' {
        't'
    } else if c == 'U' {
        'u'
    } else if c == 'V' {
        'v'
    } else if c == 'W' {
        'w'
    } else if c == 'X' {
        'x'
    } else if c == 'Y' {
        'y'
    } else if c == 'Z' {
        'z'
    } else {
        c
    }
}

/// `s` with ASCII capitals folded to lower case.
pub open spec fn ascii_lower(s: Seq<char>) -> Seq<char> {
    s.map_values(|c: char| ascii_lower_char(c))
}

/// Executable ASCII-lowercased character.
pub fn char_ascii_lower(c: char) -> (r: char)
    ensures
        r == ascii_lower_char(c),
{
    match c {
        'A' => 'a',
        'B' => 'b',
        'C' => 'c',
        'D' => 'd',
        'E' => 'e',
        'F' => 'f',
        'G' => 'g',
        'H' => 'h',
        'I' => 'i',
        'J' => 'j',
        'K' => 'k',
        'L' => 'l',
        'M' => 'm',
        'N' => 'n',
        'O' => 'o',
        'P' => 'p',
        'Q' => 'q',
        'R' => 'r',
        'S' => 's',
        'T' => 't',
        'U' => 'u',
        'V' => 'v',
        'W' => 'w',
        'X' => 'x',
        'Y' => 'y',
        'Z' => 'z',
        _ => c,
    }
}

/// One-character string for an ASCII-lowercased character.
fn lower_char_str<'a>(c: char, orig: &'a str, i: usize) -> (r: &'a str)
    requires
        i < orig@.len(),
        orig@[i as int] == c,
    ensures
        r@ =~= seq![ascii_lower_char(c)],
{
    proof {
        reveal_strlit("a");
        reveal_strlit("b");
        reveal_strlit("c");
        reveal_strlit("d");
        reveal_strlit("e");
        reveal_strlit("f");
        reveal_strlit("g");
        reveal_strlit("h");
        reveal_strlit("i");
        reveal_strlit("j");
        reveal_strlit("k");
        reveal_strlit("l");
        reveal_strlit("m");
        reveal_strlit("n");
        reveal_strlit("o");
        reveal_strlit("p");
        reveal_strlit("q");
        reveal_strlit("r");
        reveal_strlit("s");
        reveal_strlit("t");
        reveal_strlit("u");
        reveal_strlit("v");
        reveal_strlit("w");
        reveal_strlit("x");
        reveal_strlit("y");
        reveal_strlit("z");
    }
    match c {
        'A' => "a",
        'B' => "b",
        'C' => "c",
        'D' => "d",
        'E' => "e",
        'F' => "f",
        'G' => "g",
        'H' => "h",
        'I' => "i",
        'J' => "j",
        'K' => "k",
        'L' => "l",
        'M' => "m",
        'N' => "n",
        'O' => "o",
        'P' => "p",
        'Q' => "q",
        'R' => "r",
        'S' => "s",
        'T' => "t",
        'U' => "u",
        'V' => "v",
        'W' => "w",
        'X' => "x",
        'Y' => "y",
        'Z' => "z",
        _ => {
            let n = orig.unicode_len();
            let r = orig.substring_char(i, i + 1);
            proof {
                assert(orig@.subrange(i as int, i + 1) =~= seq![c]);
            }
            r
        },
    }
}

/// Copy of `s` with ASCII capitals folded to lower case.
pub fn str_to_ascii_lowercase(s: &str) -> (r: String)
    ensures
        r@ == ascii_lower(s@),
{
    let n = s.unicode_len();
    let mut r = String::new();
    let mut i: usize = 0;
    while i < n
        invariant
            n == s@.len(),
            i <= n,
            r@ == ascii_lower(s@.subrange(0, i as int)),
        decreases n - i,
    {
        let c = s.get_char(i);
        let ghost before = r@;
        r.append(lower_char_str(c, s, i));
        proof {
            assert(r@ =~= before.push(ascii_lower_char(c)));
            assert(ascii_lower(s@.subrange(0, i + 1)) =~= ascii_lower(
                s@.subrange(0, i as int),
            ).push(ascii_lower_char(s@[i as int])));
        }
        i = i + 1;
    }
    proof {
        assert(s@.subrange(0, n as int) =~= s@);
    }
    r
}

/// Does any of the needles occur in the haystack?
pub fn contains_any(haystack: &str, needles: &Vec<String>) -> (r: bool)
    ensures
        r == exists|i: int|
            0 <= i < needles@.len() && contains_seq(haystack@, #[trigger] needles.deep_view()[i]),
{
    let mut i: usize = 0;
    while i < needles.len()
        invariant
            i <= needles@.len(),
            forall|j: int|
                0 <= j < i ==> !contains_seq(haystack@, #[trigger] needles.deep_view()[j]),
        decreases needles@.len() - i,
    {
        if str_contains(haystack, needles[i].as_str()) {
            proof {
                assert(contains_seq(haystack@, needles.deep_view()[i as int]));
            }
            return true;
        }
        i = i + 1;
    }
    false
}

} // verus!
