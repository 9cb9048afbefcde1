//! Character-sequence utilities shared by the source parsers and the
//! exposition renderer: splitting on a separator, trimming, joining,
//! removing the first occurrence of a substring, and prefix tests.

use vstd::prelude::*;

verus! {

/// A character is an ASCII decimal digit.
pub open spec fn is_digit(c: char) -> bool {
    '0' <= c && c <= '9'
}

/// Executable check that a character is an ASCII decimal digit.
pub fn digit(c: char) -> (r: bool)
    ensures
        r == is_digit(c),
{
    '0' <= c && c <= '9'
}

/// Splitting `s` on `sep`, with `cur` the partial token read so far.
pub open spec fn spec_split_rec(s: Seq<char>, sep: char, cur: Seq<char>) -> Seq<Seq<char>>
    decreases s.len(),
{
    if s.len() == 0 {
        seq![cur]
    } else if s[0] == sep {
        seq![cur] + spec_split_rec(s.skip(1), sep, Seq::empty())
    } else {
        spec_split_rec(s.skip(1), sep, cur.push(s[0]))
    }
}

/// The tokens of `s` split on `sep`; empty tokens are kept, and an empty
/// input yields one empty token.
pub open spec fn spec_split(s: Seq<char>, sep: char) -> Seq<Seq<char>> {
    spec_split_rec(s, sep, Seq::empty())
}

/// Split `s` on `sep`, keeping empty tokens.
pub fn split(s: &Vec<char>, sep: char) -> (r: Vec<Vec<char>>)
    ensures
        r.deep_view() == spec_split(s@, sep),
{
    let mut out: Vec<Vec<char>> = Vec::new();
    let mut cur: Vec<char> = Vec::new();
    let mut i: usize = 0;
    proof {
        assert(s@.skip(0) =~= s@);
        assert(out.deep_view() =~~= Seq::<Seq<char>>::empty());
        assert(Seq::<Seq<char>>::empty() + spec_split_rec(s@, sep, cur@) =~= spec_split_rec(s@, sep, cur@));
    }
    while i < s.len()
        invariant
            0 <= i <= s.len(),
            spec_split(s@, sep) == out.deep_view() + spec_split_rec(s@.skip(i as int), sep, cur@),
        decreases s.len() - i,
    {
        proof {
            assert(s@.skip(i as int)[0] == s@[i as int]);
            assert(s@.skip(i as int).skip(1) =~= s@.skip(i as int + 1));
        }
        if s[i] == sep {
            let ghost old_out = out.deep_view();
            let ghost old_cur = cur@;
            out.push(cur);
            cur = Vec::new();
            proof {
                assert(out.deep_view() =~~= old_out.push(old_cur));
                assert(out.deep_view() + spec_split_rec(s@.skip(i as int + 1), sep, cur@)
                    =~= old_out + (seq![old_cur] + spec_split_rec(s@.skip(i as int + 1), sep, Seq::empty())));
            }
        } else {
            cur.push(s[i]);
        }
        i = i + 1;
    }
    proof {
        assert(s@.skip(i as int) =~= Seq::<char>::empty());
        assert(spec_split_rec(s@.skip(i as int), sep, cur@) == seq![cur@]);
    }
    let ghost old_out = out.deep_view();
    let ghost old_cur = cur@;
    out.push(cur);
    proof {
        assert(out.deep_view() =~~= old_out.push(old_cur));
        assert(out.deep_view() =~= old_out + seq![old_cur]);
    }
    out
}

/// The non-empty tokens of `ts`, in order.
pub open spec fn keep_nonempty(ts: Seq<Seq<char>>) -> Seq<Seq<char>>
    decreases ts.len(),
{
    if ts.len() == 0 {
        Seq::empty()
    } else if ts[0].len() > 0 {
        seq![ts[0]] + keep_nonempty(ts.skip(1))
    } else {
        keep_nonempty(ts.skip(1))
    }
}

/// The non-empty whitespace-separated fields of `s`, in order.
pub open spec fn spec_fields(s: Seq<char>) -> Seq<Seq<char>> {
    keep_nonempty(spec_split(s, ' '))
}

/// Split `s` on single spaces and drop the empty tokens.
pub fn fields(s: &Vec<char>) -> (r: Vec<Vec<char>>)
    ensures
        r.deep_view() == spec_fields(s@),
{
    nonempty_tokens(s, ' ')
}

/// Split `s` on `sep` and drop the empty tokens.
pub fn nonempty_tokens(s: &Vec<char>, sep: char) -> (r: Vec<Vec<char>>)
    ensures
        r.deep_view() == keep_nonempty(spec_split(s@, sep)),
{
    let ts = split(s, sep);
    let mut out: Vec<Vec<char>> = Vec::new();
    let mut i: usize = 0;
    proof {
        assert(ts.deep_view().skip(0) =~= ts.deep_view());
        assert(out.deep_view() =~~= Seq::<Seq<char>>::empty());
        assert(Seq::<Seq<char>>::empty() + keep_nonempty(ts.deep_view()) =~= keep_nonempty(ts.deep_view()));
    }
    while i < ts.len()
        invariant
            0 <= i <= ts.len(),
            ts.deep_view() == spec_split(s@, sep),
            keep_nonempty(spec_split(s@, sep)) == out.deep_view() + keep_nonempty(ts.deep_view().skip(i as int)),
        decreases ts.len() - i,
    {
        proof {
            assert(ts.deep_view().skip(i as int)[0] == ts.deep_view()[i as int]);
            assert(ts.deep_view().skip(i as int).skip(1) =~= ts.deep_view().skip(i as int + 1));
        }
        if ts[i].len() > 0 {
            let ghost old_out = out.deep_view();
            let t = copy_chars(&ts[i]);
            out.push(t);
            proof {
                assert(out.deep_view() =~~= old_out.push(ts.deep_view()[i as int]));
                assert(out.deep_view() =~= old_out + seq![ts.deep_view()[i as int]]);
            }
        }
        i = i + 1;
    }
    proof {
        assert(ts.deep_view().skip(i as int) =~= Seq::<Seq<char>>::empty());
        assert(out.deep_view() + keep_nonempty(Seq::empty()) =~= out.deep_view());
    }
    out
}

/// Copy a character vector.
pub fn copy_chars(s: &Vec<char>) -> (r: Vec<char>)
    ensures
        r@ == s@,
{
    let mut out: Vec<char> = Vec::new();
    let mut i: usize = 0;
    while i < s.len()
        invariant
            0 <= i <= s.len(),
            out@ == s@.take(i as int),
        decreases s.len() - i,
    {
        out.push(s[i]);
        proof {
            assert(out@ =~= s@.take(i as int + 1));
        }
        i = i + 1;
    }
    proof {
        assert(s@.take(i as int) =~= s@);
    }
    out
}

/// Copy the characters of `s` from index `a` up to `b`.
pub fn copy_range(s: &Vec<char>, a: usize, b: usize) -> (r: Vec<char>)
    requires
        a <= b <= s@.len(),
    ensures
        r@ == s@.subrange(a as int, b as int),
{
    let mut out: Vec<char> = Vec::new();
    let mut i: usize = a;
    proof {
        assert(out@ =~= s@.subrange(a as int, a as int));
    }
    while i < b
        invariant
            a <= i <= b <= s@.len(),
            out@ == s@.subrange(a as int, i as int),
        decreases b - i,
    {
        out.push(s[i]);
        proof {
            assert(out@ =~= s@.subrange(a as int, i as int + 1));
        }
        i = i + 1;
    }
    out
}

/// Append the characters of `src` to `dst`.
pub fn append_chars(dst: &mut Vec<char>, src: &Vec<char>)
    ensures
        final(dst)@ == old(dst)@ + src@,
{
    let mut i: usize = 0;
    while i < src.len()
        invariant
            0 <= i <= src.len(),
            dst@ == old(dst)@ + src@.take(i as int),
        decreases src.len() - i,
    {
        dst.push(src[i]);
        proof {
            assert(old(dst)@ + src@.take(i as int + 1) =~= (old(dst)@ + src@.take(i as int)).push(src@[i as int]));
        }
        i = i + 1;
    }
    proof {
        assert(src@.take(i as int) =~= src@);
    }
}

/// The tokens of `ts` joined with `sep` between consecutive tokens;
/// an empty token list yields the empty sequence.
pub open spec fn spec_join(ts: Seq<Seq<char>>, sep: char) -> Seq<char>
    decreases ts.len(),
{
    if ts.len() == 0 {
        Seq::empty()
    } else if ts.len() == 1 {
        ts[0]
    } else {
        ts[0] + seq![sep] + spec_join(ts.skip(1), sep)
    }
}

/// Join tokens with `sep` between consecutive tokens.
pub fn join(ts: &Vec<Vec<char>>, sep: char) -> (r: Vec<char>)
    ensures
        r@ == spec_join(ts.deep_view(), sep),
{
    let mut out: Vec<char> = Vec::new();
    let mut i: usize = 0;
    proof {
        assert(ts.deep_view().skip(0) =~= ts.deep_view());
    }
    while i < ts.len()
        invariant
            0 <= i <= ts.len(),
            i == 0 ==> out@ == Seq::<char>::empty(),
            i == 0 ==> spec_join(ts.deep_view(), sep) == spec_join(ts.deep_view().skip(i as int), sep),
            i > 0 ==> spec_join(ts.deep_view(), sep) == out@ + (
                if i < ts.len() { seq![sep] + spec_join(ts.deep_view().skip(i as int), sep) }
                else { Seq::<char>::empty() }
            ),
        decreases ts.len() - i,
    {
        let ghost pre = out@;
        let ghost full = ts.deep_view();
        let ghost ti = ts.deep_view()[i as int];
        proof {
            assert(full.skip(i as int)[0] == ti);
            assert(full.skip(i as int).skip(1) =~= full.skip(i as int + 1));
            assert(full.skip(i as int).len() == ts.len() - i);
        }
        if i > 0 {
            out.push(sep);
        }
        append_chars(&mut out, &ts[i]);
        proof {
            if i == 0 {
                assert(out@ =~= ti);
                if i + 1 < ts.len() {
                    assert(spec_join(full.skip(0), sep) == ti + seq![sep] + spec_join(full.skip(1), sep));
                    assert(ti + seq![sep] + spec_join(full.skip(1), sep)
                        =~= out@ + (seq![sep] + spec_join(full.skip(1), sep)));
                } else {
                    assert(spec_join(full.skip(0), sep) == ti);
                }
            } else {
                assert(out@ =~= pre + seq![sep] + ti);
                if i + 1 < ts.len() {
                    assert(spec_join(full.skip(i as int), sep)
                        == ti + seq![sep] + spec_join(full.skip(i as int + 1), sep));
                    assert(pre + (seq![sep] + (ti + seq![sep] + spec_join(full.skip(i as int + 1), sep)))
                        =~= out@ + (seq![sep] + spec_join(full.skip(i as int + 1), sep)));
                } else {
                    assert(spec_join(full.skip(i as int), sep) == ti);
                    assert(pre + (seq![sep] + ti) =~= out@);
                }
            }
        }
        i = i + 1;
    }
    proof {
        if ts.len() == 0 {
            assert(spec_join(ts.deep_view(), sep) == Seq::<char>::empty());
        }
        assert(out@ =~= spec_join(ts.deep_view(), sep));
    }
    out
}

/// The character classes that trimming strips from both ends of a token.
#[derive(Clone, Copy, PartialEq, Eq, Structural)]
pub enum TrimSet {
    /// Whitespace: spaces and tabs.
    Ws,
    /// Unit-tag punctuation: spaces and commas.
    Tag,
    /// Description punctuation: spaces and colons.
    Desc,
}

/// Whether `c` belongs to the trim class `ts`.
pub open spec fn in_set(ts: TrimSet, c: char) -> bool {
    match ts {
        TrimSet::Ws => c == ' ' || c == '\t',
        TrimSet::Tag => c == ' ' || c == ',',
        TrimSet::Desc => c == ' ' || c == ':',
    }
}

/// Executable membership test for a trim class.
pub fn in_set_exec(ts: TrimSet, c: char) -> (r: bool)
    ensures
        r == in_set(ts, c),
{
    match ts {
        TrimSet::Ws => c == ' ' || c == '\t',
        TrimSet::Tag => c == ' ' || c == ',',
        TrimSet::Desc => c == ' ' || c == ':',
    }
}

/// `s` with its leading characters of class `ts` removed.
pub open spec fn trim_start(ts: TrimSet, s: Seq<char>) -> Seq<char>
    decreases s.len(),
{
    if s.len() > 0 && in_set(ts, s[0]) {
        trim_start(ts, s.skip(1))
    } else {
        s
    }
}

/// `s` with its trailing characters of class `ts` removed.
pub open spec fn trim_end(ts: TrimSet, s: Seq<char>) -> Seq<char>
    decreases s.len(),
{
    if s.len() > 0 && in_set(ts, s.last()) {
        trim_end(ts, s.drop_last())
    } else {
        s
    }
}

/// `s` with characters of class `ts` removed from both ends.
pub open spec fn spec_trim(ts: TrimSet, s: Seq<char>) -> Seq<char> {
    trim_end(ts, trim_start(ts, s))
}

/// Remove characters of class `ts` from both ends of `s`.
pub fn trim(ts: TrimSet, s: &Vec<char>) -> (r: Vec<char>)
    ensures
        r@ == spec_trim(ts, s@),
{
    let mut a: usize = 0;
    proof {
        assert(s@.skip(0) =~= s@);
    }
    while a < s.len() && in_set_exec(ts, s[a])
        invariant
            0 <= a <= s.len(),
            trim_start(ts, s@) == trim_start(ts, s@.skip(a as int)),
        decreases s.len() - a,
    {
        proof {
            assert(s@.skip(a as int)[0] == s@[a as int]);
            assert(s@.skip(a as int).skip(1) =~= s@.skip(a as int + 1));
        }
        a = a + 1;
    }
    proof {
        if a < s.len() {
            assert(trim_start(ts, s@.skip(a as int)) == s@.skip(a as int));
        } else {
            assert(s@.skip(a as int) =~= Seq::<char>::empty());
            assert(trim_start(ts, s@.skip(a as int)) == s@.skip(a as int));
        }
    }
    let ghost head = s@.skip(a as int);
    let mut b: usize = s.len();
    proof {
        assert(head.take((b - a) as int) =~= head);
    }
    while b > a && in_set_exec(ts, s[b - 1])
        invariant
            a <= b <= s.len(),
            trim_start(ts, s@) == head,
            head == s@.skip(a as int),
            trim_end(ts, head) == trim_end(ts, head.take(b - a as int)),
        decreases b,
    {
        proof {
            let part = head.take(b - a as int);
            assert(part.len() == b - a);
            assert(part.last() == s@[b - 1 as int]);
            assert(part.drop_last() =~= head.take(b - 1 - a as int));
        }
        b = b - 1;
    }
    proof {
        let part = head.take(b - a as int);
        if b > a {
            assert(part.last() == s@[b - 1 as int]);
            assert(trim_end(ts, part) == part);
        } else {
            assert(part =~= Seq::<char>::empty());
            assert(trim_end(ts, part) == part);
        }
    }
    let mut out: Vec<char> = Vec::new();
    let mut i: usize = a;
    while i < b
        invariant
            a <= i <= b <= s.len(),
            out@ == s@.subrange(a as int, i as int),
        decreases b - i,
    {
        out.push(s[i]);
        proof {
            assert(out@ =~= s@.subrange(a as int, i as int + 1));
        }
        i = i + 1;
    }
    proof {
        assert(out@ =~= s@.skip(a as int).take(b - a as int));
    }
    out
}

/// Whether the `sub.len()` characters of `s` starting at `i` equal `sub`.
pub open spec fn match_at(s: Seq<char>, sub: Seq<char>, i: int) -> bool {
    0 <= i && i + sub.len() <= s.len() && s.subrange(i, i + sub.len() as int) == sub
}

/// Compare `sub` against the characters of `s` starting at `i`.
pub fn matches_at(s: &Vec<char>, sub: &Vec<char>, i: usize) -> (r: bool)
    requires
        i + sub@.len() <= s@.len(),
    ensures
        r == match_at(s@, sub@, i as int),
{
    let n = s.len();
    let mut j: usize = 0;
    proof {
        assert(s@.subrange(i as int, i as int) =~= sub@.take(0));
    }
    while j < sub.len()
        invariant
            0 <= j <= sub.len(),
            n == s@.len(),
            i + sub@.len() <= s@.len(),
            s@.subrange(i as int, i + j as int) == sub@.take(j as int),
        decreases sub.len() - j,
    {
        if s[i + j] != sub[j] {
            proof {
                assert(s@.subrange(i as int, i + sub@.len() as int)[j as int] == s@[i + j]);
                assert(sub@[j as int] != s@[i + j]);
            }
            return false;
        }
        proof {
            assert(s@.subrange(i as int, i + j as int + 1) =~= s@.subrange(i as int, i + j as int).push(s@[i + j]));
            assert(sub@.take(j as int + 1) =~= sub@.take(j as int).push(sub@[j as int]));
        }
        j = j + 1;
    }
    proof {
        assert(sub@.take(j as int) =~= sub@);
        assert(s@.subrange(i as int, i + j as int) == sub@);
    }
    true
}

/// `s` with the first occurrence of `sub` removed; `s` unchanged when `sub`
/// is empty or does not occur.
pub open spec fn remove_first(s: Seq<char>, sub: Seq<char>) -> Seq<char>
    decreases s.len(),
{
    if sub.len() == 0 {
        s
    } else if s.len() < sub.len() {
        s
    } else if s.take(sub.len() as int) == sub {
        s.skip(sub.len() as int)
    } else {
        seq![s[0]] + remove_first(s.skip(1), sub)
    }
}

/// Remove the first occurrence of `sub` from `s`.
pub fn remove_first_exec(s: &Vec<char>, sub: &Vec<char>) -> (r: Vec<char>)
    ensures
        r@ == remove_first(s@, sub@),
{
    if sub.len() == 0 || s.len() < sub.len() {
        return copy_chars(s);
    }
    let bound = s.len() - sub.len();
    let mut i: usize = 0;
    proof {
        assert(s@.skip(0) =~= s@);
        assert(s@.take(0) + remove_first(s@, sub@) =~= remove_first(s@, sub@));
    }
    while i <= bound
        invariant
            0 <= i,
            i <= s.len(),
            sub@.len() > 0,
            sub@.len() <= s@.len(),
            bound == s@.len() - sub@.len(),
            remove_first(s@, sub@) == s@.take(i as int) + remove_first(s@.skip(i as int), sub@),
        decreases s.len() - i,
    {
        proof {
            assert(s@.skip(i as int).len() == s@.len() - i);
            assert(s@.skip(i as int).take(sub@.len() as int) =~= s@.subrange(i as int, i + sub@.len() as int));
        }
        if matches_at(s, sub, i) {
            proof {
                assert(remove_first(s@.skip(i as int), sub@) == s@.skip(i as int).skip(sub@.len() as int));
                assert(s@.skip(i as int).skip(sub@.len() as int) =~= s@.skip(i + sub@.len() as int));
            }
            let mut out: Vec<char> = Vec::new();
            let mut j: usize = 0;
            while j < i
                invariant
                    0 <= j <= i <= s@.len(),
                    out@ == s@.take(j as int),
                decreases i - j,
            {
                out.push(s[j]);
                proof {
                    assert(out@ =~= s@.take(j as int + 1));
                }
                j = j + 1;
            }
            let mut k: usize = i + sub.len();
            let ghost start = k as int;
            while k < s.len()
                invariant
                    start <= k <= s@.len(),
                    i as int + sub@.len() == start,
                    out@ == s@.take(i as int) + s@.subrange(start, k as int),
                decreases s.len() - k,
            {
                out.push(s[k]);
                proof {
                    assert(s@.take(i as int) + s@.subrange(start, k as int + 1)
                        =~= (s@.take(i as int) + s@.subrange(start, k as int)).push(s@[k as int]));
                }
                k = k + 1;
            }
            proof {
                assert(s@.subrange(start, s@.len() as int) =~= s@.skip(start));
            }
            return out;
        }
        proof {
            assert(s@.skip(i as int)[0] == s@[i as int]);
            assert(s@.skip(i as int).skip(1) =~= s@.skip(i as int + 1));
            assert(remove_first(s@.skip(i as int), sub@) == seq![s@[i as int]] + remove_first(s@.skip(i as int + 1), sub@));
            assert(s@.take(i as int) + (seq![s@[i as int]] + remove_first(s@.skip(i as int + 1), sub@))
                =~= s@.take(i as int + 1) + remove_first(s@.skip(i as int + 1), sub@));
        }
        i = i + 1;
    }
    proof {
        assert(s@.skip(i as int).len() < sub@.len());
        assert(remove_first(s@.skip(i as int), sub@) == s@.skip(i as int));
        assert(s@.take(i as int) + s@.skip(i as int) =~= s@);
    }
    copy_chars(s)
}

/// Collapse runs of spaces in `s` to single spaces, dropping leading and
/// trailing spaces: the non-empty fields joined with one space.
pub open spec fn spec_collapse(s: Seq<char>) -> Seq<char> {
    spec_join(spec_fields(s), ' ')
}

/// Collapse internal whitespace runs of `s` to single spaces.
pub fn collapse(s: &Vec<char>) -> (r: Vec<char>)
    ensures
        r@ == spec_collapse(s@),
{
    let fs = fields(s);
    join(&fs, ' ')
}

/// Compare two character vectors for equality.
pub fn eq_chars(a: &Vec<char>, b: &Vec<char>) -> (r: bool)
    ensures
        r == (a@ == b@),
{
    if a.len() != b.len() {
        return false;
    }
    let mut i: usize = 0;
    while i < a.len()
        invariant
            0 <= i <= a.len(),
            a@.len() == b@.len(),
            a@.take(i as int) == b@.take(i as int),
        decreases a.len() - i,
    {
        if a[i] != b[i] {
            proof {
                assert(a@[i as int] != b@[i as int]);
            }
            return false;
        }
        proof {
            assert(a@.take(i as int + 1) =~= a@.take(i as int).push(a@[i as int]));
            assert(b@.take(i as int + 1) =~= b@.take(i as int).push(b@[i as int]));
        }
        i = i + 1;
    }
    proof {
        assert(a@.take(i as int) =~= a@);
        assert(b@.take(i as int) =~= b@);
    }
    true
}

/// Whether `p` occurs at the start of `s`.
pub fn has_prefix(s: &Vec<char>, p: &Vec<char>) -> (r: bool)
    ensures
        r == p@.is_prefix_of(s@),
{
    if p.len() > s.len() {
        return false;
    }
    let r = matches_at(s, p, 0);
    proof {
        assert(s@.subrange(0, p@.len() as int) =~= s@.take(p@.len() as int));
    }
    r
}

} // verus!
