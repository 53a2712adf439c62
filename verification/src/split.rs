//! Splitting and trimming of the collectors' textual tables.

use vstd::prelude::*;
use vstd::string::StrSliceExecFns;
use crate::chars::{blank, is_blank};

verus! {

/// The pieces of `s` between occurrences of `sep`, in order; empty
/// pieces are kept, so the result always holds one piece more than
/// `s` holds separators.
pub open spec fn split_at_sep(s: Seq<char>, sep: char) -> Seq<Seq<char>>
    decreases s.len(),
{
    if s.len() == 0 {
        seq![Seq::<char>::empty()]
    } else {
        let rest = split_at_sep(s.drop_last(), sep);
        if s.last() == sep {
            rest.push(Seq::<char>::empty())
        } else {
            rest.update(rest.len() - 1, rest.last().push(s.last()))
        }
    }
}

/// The maximal runs of non-blank characters of `s`, in order.
pub open spec fn blank_split(s: Seq<char>) -> Seq<Seq<char>>
    decreases s.len(),
{
    if s.len() == 0 {
        Seq::<Seq<char>>::empty()
    } else {
        let rest = blank_split(s.drop_last());
        if is_blank(s.last()) {
            rest
        } else if s.len() >= 2 && !is_blank(s[s.len() - 2]) {
            rest.update(rest.len() - 1, rest.last().push(s.last()))
        } else {
            rest.push(seq![s.last()])
        }
    }
}

/// Splits `s` at every occurrence of `sep`, keeping empty fields.
pub fn split_fields(s: &str, sep: char) -> (r: Vec<String>)
    ensures
        r.deep_view() == split_at_sep(s@, sep),
{
    let n = s.unicode_len();
    let mut r: Vec<String> = Vec::new();
    proof {
        assert(s@.subrange(0, 0) =~= Seq::<char>::empty());
        assert(r.deep_view() =~= Seq::<Seq<char>>::empty());
        assert(split_at_sep(s@.subrange(0, 0), sep) =~= r.deep_view().push(s@.subrange(0, 0)));
    }
    let mut a: usize = 0;
    let mut i: usize = 0;
    while i < n
        invariant
            0 <= a <= i <= n,
            n == s@.len(),
            split_at_sep(s@.subrange(0, i as int), sep) =~= r.deep_view().push(
                s@.subrange(a as int, i as int),
            ),
            forall|j: int| a <= j < i ==> s@[j] != sep,
        decreases n - i,
    {
        let ghost pre = r.deep_view();
        let c = s.get_char(i);
        proof {
            assert(s@.subrange(0, i + 1).drop_last() =~= s@.subrange(0, i as int));
            assert(s@.subrange(0, i + 1).last() == s@[i as int]);
        }
        if c == sep {
            let f = s.substring_char(a, i).to_owned();
            r.push(f);
            proof {
                assert(r.deep_view() =~= pre.push(s@.subrange(a as int, i as int)));
                assert(split_at_sep(s@.subrange(0, i + 1), sep) =~= r.deep_view().push(
                    Seq::<char>::empty(),
                ));
                assert(s@.subrange(i + 1, i + 1) =~= Seq::<char>::empty());
            }
            a = i + 1;
        } else {
            proof {
                let rest = split_at_sep(s@.subrange(0, i as int), sep);
                assert(rest.last() == s@.subrange(a as int, i as int));
                assert(s@.subrange(a as int, i as int).push(s@[i as int]) =~= s@.subrange(
                    a as int,
                    i + 1,
                ));
                assert(split_at_sep(s@.subrange(0, i + 1), sep) =~= r.deep_view().push(
                    s@.subrange(a as int, i + 1),
                ));
            }
        }
        i = i + 1;
    }
    let ghost pre = r.deep_view();
    let f = s.substring_char(a, n).to_owned();
    r.push(f);
    proof {
        assert(r.deep_view() =~= pre.push(s@.subrange(a as int, n as int)));
        assert(s@.subrange(0, n as int) =~= s@);
    }
    r
}

/// Splits `s` into its maximal runs of non-blank characters.
pub fn blank_fields(s: &str) -> (r: Vec<String>)
    ensures
        r.deep_view() == blank_split(s@),
{
    let n = s.unicode_len();
    let mut r: Vec<String> = Vec::new();
    let mut a: usize = 0;
    let mut i: usize = 0;
    while i < n
        invariant
            0 <= a <= i <= n,
            n == s@.len(),
            forall|j: int| a <= j < i ==> !is_blank(s@[j]),
            a == i ==> blank_split(s@.subrange(0, i as int)) =~= r.deep_view(),
            a == i ==> (i == 0 || is_blank(s@[i - 1])),
            a < i ==> blank_split(s@.subrange(0, i as int)) =~= r.deep_view().push(
                s@.subrange(a as int, i as int),
            ),
            a < i ==> (a == 0 || is_blank(s@[a - 1])),
        decreases n - i,
    {
        let ghost pre = r.deep_view();
        let c = s.get_char(i);
        proof {
            assert(s@.subrange(0, i + 1).drop_last() =~= s@.subrange(0, i as int));
            assert(s@.subrange(0, i + 1).last() == s@[i as int]);
        }
        if blank(c) {
            if a < i {
                let f = s.substring_char(a, i).to_owned();
                r.push(f);
                proof {
                    assert(r.deep_view() =~= pre.push(s@.subrange(a as int, i as int)));
                }
            }
            a = i + 1;
        } else {
            if a < i {
                proof {
                    let rest = blank_split(s@.subrange(0, i as int));
                    assert(s@.subrange(0, i + 1)[i - 1] == s@[i - 1]);
                    assert(rest.last() == s@.subrange(a as int, i as int));
                    assert(s@.subrange(a as int, i as int).push(s@[i as int]) =~= s@.subrange(
                        a as int,
                        i + 1,
                    ));
                    assert(blank_split(s@.subrange(0, i + 1)) =~= r.deep_view().push(
                        s@.subrange(a as int, i + 1),
                    ));
                }
            } else {
                proof {
                    if i > 0 {
                        assert(s@.subrange(0, i + 1)[i - 1] == s@[i - 1]);
                    }
                    assert(s@.subrange(a as int, i + 1) =~= seq![s@[i as int]]);
                    assert(blank_split(s@.subrange(0, i + 1)) =~= r.deep_view().push(
                        s@.subrange(a as int, i + 1),
                    ));
                }
            }
        }
        i = i + 1;
    }
    if a < n {
        let ghost pre = r.deep_view();
        let f = s.substring_char(a, n).to_owned();
        r.push(f);
        proof {
            assert(r.deep_view() =~= pre.push(s@.subrange(a as int, n as int)));
        }
    }
    proof {
        assert(s@.subrange(0, n as int) =~= s@);
    }
    r
}

/// `s` without the characters satisfying `strip` at its start.
pub open spec fn trim_start(s: Seq<char>, strip: spec_fn(char) -> bool) -> Seq<char>
    decreases s.len(),
{
    if s.len() > 0 && strip(s[0]) {
        trim_start(s.drop_first(), strip)
    } else {
        s
    }
}

/// `s` without the characters satisfying `strip` at its end.
pub open spec fn trim_end(s: Seq<char>, strip: spec_fn(char) -> bool) -> Seq<char>
    decreases s.len(),
{
    if s.len() > 0 && strip(s.last()) {
        trim_end(s.drop_last(), strip)
    } else {
        s
    }
}

/// `s` without the characters satisfying `strip` at either end.
pub open spec fn trimmed(s: Seq<char>, strip: spec_fn(char) -> bool) -> Seq<char> {
    trim_end(trim_start(s, strip), strip)
}

/// A quotation mark, the character the process table quotes its
/// fields with.
pub open spec fn is_quote(c: char) -> bool {
    c == '"'
}

/// `s` without blank space at either end.
pub open spec fn blank_trimmed(s: Seq<char>) -> Seq<char> {
    trimmed(s, strip_class(false))
}

/// `s` without quotation marks at either end.
pub open spec fn quote_trimmed(s: Seq<char>) -> Seq<char> {
    trimmed(s, strip_class(true))
}

/// Removes blank space from both ends of `s`.
pub fn trim_blank(s: &str) -> (r: String)
    ensures
        r@ == blank_trimmed(s@),
{
    trim_by(s, false)
}

/// Removes quotation marks from both ends of `s`.
pub fn trim_quotes(s: &str) -> (r: String)
    ensures
        r@ == quote_trimmed(s@),
{
    trim_by(s, true)
}

/// Whether `c` is stripped: a quotation mark when `quotes`, blank
/// space otherwise.
pub open spec fn strip_class(quotes: bool) -> spec_fn(char) -> bool {
    if quotes {
        |c: char| is_quote(c)
    } else {
        |c: char| is_blank(c)
    }
}

fn strip_char(c: char, quotes: bool) -> (r: bool)
    ensures
        r == strip_class(quotes)(c),
{
    if quotes {
        c == '"'
    } else {
        blank(c)
    }
}

fn trim_by(s: &str, quotes: bool) -> (r: String)
    ensures
        r@ == trimmed(s@, strip_class(quotes)),
{
    let ghost strip = strip_class(quotes);
    let n = s.unicode_len();
    proof {
        assert(s@.subrange(0, n as int) =~= s@);
    }
    let mut a: usize = 0;
    while a < n && strip_char(s.get_char(a), quotes)
        invariant
            0 <= a <= n,
            n == s@.len(),
            strip == strip_class(quotes),
            trim_start(s@, strip) == trim_start(s@.subrange(a as int, n as int), strip),
        decreases n - a,
    {
        proof {
            assert(s@.subrange(a as int, n as int)[0] == s@[a as int]);
            assert(s@.subrange(a as int, n as int).drop_first() =~= s@.subrange(a + 1, n as int));
        }
        a = a + 1;
    }
    proof {
        if a < n {
            assert(s@.subrange(a as int, n as int)[0] == s@[a as int]);
        }
        assert(trim_start(s@, strip) == s@.subrange(a as int, n as int));
    }
    let mut b: usize = n;
    while b > a && strip_char(s.get_char(b - 1), quotes)
        invariant
            a <= b <= n,
            n == s@.len(),
            strip == strip_class(quotes),
            trim_start(s@, strip) == s@.subrange(a as int, n as int),
            trim_end(s@.subrange(a as int, n as int), strip) == trim_end(
                s@.subrange(a as int, b as int),
                strip,
            ),
        decreases b,
    {
        proof {
            assert(s@.subrange(a as int, b as int).last() == s@[b - 1]);
            assert(s@.subrange(a as int, b as int).drop_last() =~= s@.subrange(a as int, b - 1));
        }
        b = b - 1;
    }
    proof {
        if b > a {
            assert(s@.subrange(a as int, b as int).last() == s@[b - 1]);
        }
        assert(trim_end(s@.subrange(a as int, b as int), strip) == s@.subrange(a as int, b as int));
    }
    s.substring_char(a, b).to_owned()
}

/// `pat` occurs in `s` as a contiguous run.
pub open spec fn has_substr(s: Seq<char>, pat: Seq<char>) -> bool {
    exists|k: int|
        0 <= k && k + pat.len() <= s.len() && #[trigger] s.subrange(k, k + pat.len() as int)
            == pat
}

/// Whether `pat` occurs in `s` as a contiguous run.
pub fn contains_substr(s: &str, pat: &str) -> (r: bool)
    ensures
        r == has_substr(s@, pat@),
{
    let n = s.unicode_len();
    let m = pat.unicode_len();
    if m > n {
        return false;
    }
    if m == 0 {
        proof {
            assert(s@.subrange(0, 0 + pat@.len() as int) =~= pat@);
        }
        return true;
    }
    let mut k: usize = 0;
    while k <= n - m
        invariant
            0 <= k <= n - m + 1,
            1 <= m <= n,
            n == s@.len(),
            m == pat@.len(),
            forall|k2: int|
                0 <= k2 < k ==> #[trigger] s@.subrange(k2, k2 + pat@.len() as int) != pat@,
        decreases n - m + 1 - k,
    {
        let mut j: usize = 0;
        let mut hit: bool = true;
        while j < m
            invariant
                0 <= j <= m,
                0 <= k <= n - m,
                n == s@.len(),
                m == pat@.len(),
                hit ==> forall|j2: int| 0 <= j2 < j ==> s@[k + j2] == pat@[j2],
                !hit ==> s@.subrange(k as int, k + pat@.len() as int) != pat@,
            decreases m - j,
        {
            if s.get_char(k + j) != pat.get_char(j) {
                proof {
                    assert(s@.subrange(k as int, k + pat@.len() as int)[j as int] == s@[k + j]);
                }
                hit = false;
                j = m;
            } else {
                j = j + 1;
            }
        }
        if hit {
            proof {
                assert(s@.subrange(k as int, k + pat@.len() as int) =~= pat@);
            }
            return true;
        }
        k = k + 1;
    }
    false
}

/// What follows the last colon of `s`: the whole of `s` when it has
/// no colon.
pub open spec fn after_last_colon(s: Seq<char>) -> Seq<char>
    decreases s.len(),
{
    if s.len() == 0 {
        s
    } else if s.last() == ':' {
        Seq::<char>::empty()
    } else {
        after_last_colon(s.drop_last()).push(s.last())
    }
}

/// Returns what follows the last colon of `s`.
pub fn tail_after_colon(s: &str) -> (r: String)
    ensures
        r@ == after_last_colon(s@),
{
    let n = s.unicode_len();
    proof {
        assert(s@.subrange(0, n as int) =~= s@);
        assert(after_last_colon(s@) + s@.subrange(n as int, n as int) =~= after_last_colon(s@));
    }
    let mut i: usize = n;
    while i > 0 && s.get_char(i - 1) != ':'
        invariant
            0 <= i <= n,
            n == s@.len(),
            after_last_colon(s@) == after_last_colon(s@.subrange(0, i as int)) + s@.subrange(
                i as int,
                n as int,
            ),
            forall|j: int| i <= j < n ==> s@[j] != ':',
        decreases i,
    {
        proof {
            assert(s@.subrange(0, i as int).last() == s@[i - 1]);
            assert(s@.subrange(0, i as int).drop_last() =~= s@.subrange(0, i - 1));
            assert(after_last_colon(s@.subrange(0, i - 1)).push(s@[i - 1]) + s@.subrange(
                i as int,
                n as int,
            ) =~= after_last_colon(s@.subrange(0, i - 1)) + s@.subrange(i - 1, n as int));
        }
        i = i - 1;
    }
    proof {
        if i > 0 {
            assert(s@.subrange(0, i as int).last() == s@[i - 1]);
            assert(after_last_colon(s@.subrange(0, i as int)) =~= Seq::<char>::empty());
        } else {
            assert(s@.subrange(0, 0) =~= Seq::<char>::empty());
        }
        assert(after_last_colon(s@) =~= s@.subrange(i as int, n as int));
    }
    s.substring_char(i, n).to_owned()
}

} // verus!
