//! Verified text utilities: splitting on a separator, trimming whitespace,
//! joining lines, and prefix tests, each specified over `Seq<char>`.

use vstd::prelude::*;
use vstd::string::StrSliceExecFns;
use vstd::string::StringExecFns;

verus! {

/// The view of each string in a sequence of strings.
pub open spec fn str_views(v: Seq<String>) -> Seq<Seq<char>> {
    Seq::new(v.len(), |i: int| v[i]@)
}

/// Whitespace, for trimming: the characters with the Unicode `White_Space`
/// property, the set that `str::trim` removes.
pub open spec fn is_space(c: char) -> bool {
    ||| c == ' '
    ||| c == '\t'
    ||| c == '\n'
    ||| c == '\r'
    ||| c == '\u{b}'
    ||| c == '\u{c}'
    ||| c == '\u{85}'
    ||| c == '\u{a0}'
    ||| c == '\u{1680}'
    ||| c == '\u{2000}'
    ||| c == '\u{2001}'
    ||| c == '\u{2002}'
    ||| c == '\u{2003}'
    ||| c == '\u{2004}'
    ||| c == '\u{2005}'
    ||| c == '\u{2006}'
    ||| c == '\u{2007}'
    ||| c == '\u{2008}'
    ||| c == '\u{2009}'
    ||| c == '\u{200a}'
    ||| c == '\u{2028}'
    ||| c == '\u{2029}'
    ||| c == '\u{202f}'
    ||| c == '\u{205f}'
    ||| c == '\u{3000}'
}

fn is_space_char(c: char) -> (r: bool)
    ensures
        r == is_space(c),
{
    c == ' ' || c == '\t' || c == '\n' || c == '\r' || c == '\u{b}' || c == '\u{c}' || c == '\u{85}'
        || c == '\u{a0}' || c == '\u{1680}' || c == '\u{2000}' || c == '\u{2001}'
        || c == '\u{2002}' || c == '\u{2003}' || c == '\u{2004}' || c == '\u{2005}'
        || c == '\u{2006}' || c == '\u{2007}' || c == '\u{2008}' || c == '\u{2009}'
        || c == '\u{200a}' || c == '\u{2028}' || c == '\u{2029}' || c == '\u{202f}'
        || c == '\u{205f}' || c == '\u{3000}'
}

/// The string with its leading whitespace removed.
pub open spec fn trim_start_rec(s: Seq<char>) -> Seq<char>
    decreases s.len(),
{
    if s.len() > 0 && is_space(s[0]) {
        trim_start_rec(s.drop_first())
    } else {
        s
    }
}

/// The string with its trailing whitespace removed.
pub open spec fn trim_end_rec(s: Seq<char>) -> Seq<char>
    decreases s.len(),
{
    if s.len() > 0 && is_space(s[s.len() - 1]) {
        trim_end_rec(s.drop_last())
    } else {
        s
    }
}

/// The string with leading and trailing whitespace removed.
pub open spec fn spec_trim(s: Seq<char>) -> Seq<char> {
    trim_end_rec(trim_start_rec(s))
}

/// Trimming the front keeps exactly the suffix that starts at the first
/// non-whitespace character.
pub proof fn lemma_trim_start_at(s: Seq<char>, a: int)
    requires
        0 <= a <= s.len(),
        forall|i: int| 0 <= i < a ==> is_space(s[i]),
        a < s.len() ==> !is_space(s[a]),
    ensures
        trim_start_rec(s) == s.subrange(a, s.len() as int),
    decreases a,
{
    if a == 0 {
        assert(s.subrange(0, s.len() as int) =~= s);
    } else {
        assert(is_space(s[0]));
        let t = s.drop_first();
        assert(forall|i: int| 0 <= i < a - 1 ==> is_space(#[trigger] t[i]));
        lemma_trim_start_at(t, a - 1);
        assert(t.subrange(a - 1, t.len() as int) =~= s.subrange(a, s.len() as int));
    }
}

/// Trimming the back keeps exactly the prefix that ends at the last
/// non-whitespace character.
pub proof fn lemma_trim_end_at(s: Seq<char>, b: int)
    requires
        0 <= b <= s.len(),
        forall|i: int| b <= i < s.len() ==> is_space(s[i]),
        b > 0 ==> !is_space(s[b - 1]),
    ensures
        trim_end_rec(s) == s.subrange(0, b),
    decreases s.len() - b,
{
    if b == s.len() {
        if s.len() > 0 && is_space(s[s.len() - 1]) {
            assert(!is_space(s[b - 1]));
        }
        assert(s.subrange(0, b) =~= s);
    } else {
        assert(is_space(s[s.len() - 1]));
        let t = s.drop_last();
        assert(forall|i: int| b <= i < t.len() ==> is_space(#[trigger] t[i]));
        lemma_trim_end_at(t, b);
        assert(t.subrange(0, b) =~= s.subrange(0, b));
    }
}

/// A string whose first and last characters are not whitespace is already
/// trimmed.
pub proof fn lemma_trim_of_trimmed(s: Seq<char>)
    requires
        s.len() > 0,
        !is_space(s[0]),
        !is_space(s[s.len() - 1]),
    ensures
        spec_trim(s) == s,
{
    lemma_trim_start_at(s, 0);
    assert(s.subrange(0, s.len() as int) =~= s);
    lemma_trim_end_at(s, s.len() as int);
}

/// Removes leading and trailing whitespace, per `spec_trim`.
pub fn trim_str(s: &str) -> (r: String)
    ensures
        r@ == spec_trim(s@),
{
    let n = s.unicode_len();
    let mut a: usize = 0;
    while a < n && is_space_char(s.get_char(a))
        invariant
            n == s@.len(),
            0 <= a <= n,
            forall|i: int| 0 <= i < a ==> is_space(s@[i]),
        decreases n - a,
    {
        a = a + 1;
    }
    let mut b: usize = n;
    while b > a && is_space_char(s.get_char(b - 1))
        invariant
            n == s@.len(),
            a <= b <= n,
            forall|i: int| b <= i < n ==> is_space(s@[i]),
        decreases b,
    {
        b = b - 1;
    }
    proof {
        lemma_trim_start_at(s@, a as int);
        let t = s@.subrange(a as int, n as int);
        assert(forall|i: int| b - a <= i < t.len() ==> is_space(#[trigger] t[i]));
        lemma_trim_end_at(t, b - a);
        assert(t.subrange(0, b - a) =~= s@.subrange(a as int, b as int));
    }
    s.substring_char(a, b).to_owned()
}

/// The line with one trailing carriage return removed, as `str::lines`
/// strips it, so that input with `\r\n` line endings reads as input with
/// `\n` line endings.
pub open spec fn strip_cr(l: Seq<char>) -> Seq<char> {
    if l.len() > 0 && l[l.len() - 1] == '\r' {
        l.drop_last()
    } else {
        l
    }
}

/// Removes one trailing carriage return, per `strip_cr`.
pub fn strip_cr_str(s: &str) -> (r: String)
    ensures
        r@ == strip_cr(s@),
{
    let n = s.unicode_len();
    if n > 0 && s.get_char(n - 1) == '\r' {
        proof {
            assert(s@.subrange(0, n - 1) =~= s@.drop_last());
        }
        s.substring_char(0, n - 1).to_owned()
    } else {
        s.to_owned()
    }
}

/// `pre` stands at the front of `s`.
pub open spec fn is_prefix_of(pre: Seq<char>, s: Seq<char>) -> bool {
    pre.len() <= s.len() && s.subrange(0, pre.len() as int) == pre
}

/// Tests whether `s` starts with `pre`.
pub fn starts_with_str(s: &str, pre: &str) -> (r: bool)
    ensures
        r == is_prefix_of(pre@, s@),
{
    let n = s.unicode_len();
    let m = pre.unicode_len();
    if m > n {
        return false;
    }
    let mut i: usize = 0;
    while i < m
        invariant
            n == s@.len(),
            m == pre@.len(),
            m <= n,
            0 <= i <= m,
            forall|j: int| 0 <= j < i ==> s@[j] == pre@[j],
        decreases m - i,
    {
        if s.get_char(i) != pre.get_char(i) {
            proof {
                assert(s@.subrange(0, m as int)[i as int] != pre@[i as int]);
            }
            return false;
        }
        i = i + 1;
    }
    proof {
        assert(s@.subrange(0, m as int) =~= pre@);
    }
    true
}

/// The pieces of `s` between successive non-overlapping, leftmost matches of
/// the separator `sep`.  There is always at least one piece; a separator at
/// the very front or back contributes an empty piece.
pub open spec fn spec_split(s: Seq<char>, sep: Seq<char>) -> Seq<Seq<char>>
    recommends
        sep.len() > 0,
    decreases s.len(),
{
    if sep.len() == 0 || s.len() < sep.len() {
        seq![s]
    } else if s.subrange(0, sep.len() as int) == sep {
        seq![Seq::<char>::empty()] + spec_split(s.subrange(sep.len() as int, s.len() as int), sep)
    } else {
        let rest = spec_split(s.subrange(1, s.len() as int), sep);
        seq![seq![s[0]] + rest[0]] + rest.subrange(1, rest.len() as int)
    }
}

/// Splitting yields at least one piece.
pub proof fn lemma_split_len(s: Seq<char>, sep: Seq<char>)
    ensures
        spec_split(s, sep).len() >= 1,
    decreases s.len(),
{
    if sep.len() == 0 || s.len() < sep.len() {
    } else if s.subrange(0, sep.len() as int) == sep {
        lemma_split_len(s.subrange(sep.len() as int, s.len() as int), sep);
    } else {
        lemma_split_len(s.subrange(1, s.len() as int), sep);
    }
}

/// A string with no match of the separator is a single piece.
pub proof fn lemma_split_no_match(s: Seq<char>, sep: Seq<char>)
    requires
        sep.len() > 0,
        forall|i: int|
            0 <= i <= s.len() - sep.len() ==> #[trigger] s.subrange(i, i + sep.len() as int)
                != sep,
    ensures
        spec_split(s, sep) == seq![s],
    decreases s.len(),
{
    if s.len() < sep.len() {
    } else {
        assert(s.subrange(0, sep.len() as int) != sep) by {
            assert(s.subrange(0, 0 + sep.len() as int) != sep);
        }
        let t = s.subrange(1, s.len() as int);
        assert forall|i: int| 0 <= i <= t.len() - sep.len() implies #[trigger] t.subrange(
            i,
            i + sep.len() as int,
        ) != sep by {
            assert(t.subrange(i, i + sep.len() as int) =~= s.subrange(
                i + 1,
                i + 1 + sep.len() as int,
            ));
        }
        lemma_split_no_match(t, sep);
        let rest = spec_split(t, sep);
        assert(rest == seq![t]);
        assert(seq![s[0]] + rest[0] =~= s);
        assert(rest.subrange(1, rest.len() as int) =~= Seq::<Seq<char>>::empty());
        assert(spec_split(s, sep) =~= seq![s]);
    }
}

/// With the leftmost match of the separator at `k`, the split is the piece
/// before `k` followed by the split of what stands after the separator.
pub proof fn lemma_split_at_first_match(s: Seq<char>, sep: Seq<char>, k: int)
    requires
        sep.len() > 0,
        0 <= k,
        k + sep.len() <= s.len(),
        s.subrange(k, k + sep.len() as int) == sep,
        forall|i: int| 0 <= i < k ==> #[trigger] s.subrange(i, i + sep.len() as int) != sep,
    ensures
        spec_split(s, sep) == seq![s.subrange(0, k)] + spec_split(
            s.subrange(k + sep.len() as int, s.len() as int),
            sep,
        ),
    decreases k,
{
    if k == 0 {
        assert(s.subrange(0, 0) =~= Seq::<char>::empty());
        assert(spec_split(s, sep) =~= seq![s.subrange(0, 0)] + spec_split(
            s.subrange(sep.len() as int, s.len() as int),
            sep,
        ));
    } else {
        assert(s.subrange(0, sep.len() as int) != sep) by {
            assert(s.subrange(0, 0 + sep.len() as int) != sep);
        }
        let t = s.subrange(1, s.len() as int);
        assert(t.subrange(k - 1, k - 1 + sep.len() as int) =~= s.subrange(
            k,
            k + sep.len() as int,
        ));
        assert forall|i: int| 0 <= i < k - 1 implies #[trigger] t.subrange(
            i,
            i + sep.len() as int,
        ) != sep by {
            assert(t.subrange(i, i + sep.len() as int) =~= s.subrange(
                i + 1,
                i + 1 + sep.len() as int,
            ));
        }
        lemma_split_at_first_match(t, sep, k - 1);
        let rest = spec_split(t, sep);
        lemma_split_len(t, sep);
        assert(rest[0] == t.subrange(0, k - 1));
        assert(seq![s[0]] + t.subrange(0, k - 1) =~= s.subrange(0, k));
        assert(t.subrange(k - 1 + sep.len() as int, t.len() as int) =~= s.subrange(
            k + sep.len() as int,
            s.len() as int,
        ));
        assert(rest.subrange(1, rest.len() as int) =~= spec_split(
            s.subrange(k + sep.len() as int, s.len() as int),
            sep,
        ));
        assert(spec_split(s, sep) =~= seq![s.subrange(0, k)] + spec_split(
            s.subrange(k + sep.len() as int, s.len() as int),
            sep,
        ));
    }
}

/// Tests whether `sep` stands in `s` at position `i`.
fn matches_at(s: &str, sep: &str, i: usize) -> (r: bool)
    requires
        i + sep@.len() <= s@.len(),
        s@.len() <= usize::MAX,
    ensures
        r == (s@.subrange(i as int, i + sep@.len() as int) == sep@),
{
    let m = sep.unicode_len();
    let mut j: usize = 0;
    while j < m
        invariant
            m == sep@.len(),
            i + m <= s@.len() <= usize::MAX,
            0 <= j <= m,
            forall|p: int| 0 <= p < j ==> s@[i + p] == sep@[p],
        decreases m - j,
    {
        if s.get_char(i + j) != sep.get_char(j) {
            proof {
                assert(s@.subrange(i as int, i + m as int)[j as int] != sep@[j as int]);
            }
            return false;
        }
        j = j + 1;
    }
    proof {
        assert(s@.subrange(i as int, i + m as int) =~= sep@);
    }
    true
}

/// Splits `s` on the separator `sep`, per `spec_split`.
pub fn split_str(s: &str, sep: &str) -> (r: Vec<String>)
    requires
        sep@.len() > 0,
    ensures
        str_views(r@) == spec_split(s@, sep@),
{
    let ghost full = spec_split(s@, sep@);
    let n = s.unicode_len();
    let m = sep.unicode_len();
    let mut r: Vec<String> = Vec::new();
    let mut start: usize = 0;
    proof {
        assert(s@.subrange(0, n as int) =~= s@);
        assert(str_views(r@) + spec_split(s@, sep@) =~= spec_split(s@, sep@));
    }
    if m <= n {
        let mut j: usize = 0;
        while j <= n - m
            invariant
                n == s@.len(),
                m == sep@.len(),
                0 < m <= n,
                0 <= start <= j <= n,
                full == spec_split(s@, sep@),
                forall|p: int|
                    start <= p < j ==> #[trigger] s@.subrange(p, p + m as int) != sep@,
                full == str_views(r@) + spec_split(s@.subrange(start as int, n as int), sep@),
            decreases n - j,
        {
            if matches_at(s, sep, j) {
                let piece = s.substring_char(start, j).to_owned();
                proof {
                    let t = s@.subrange(start as int, n as int);
                    let k = j - start;
                    assert(t.subrange(k, k + m as int) =~= s@.subrange(j as int, j + m as int));
                    assert forall|i: int| 0 <= i < k implies #[trigger] t.subrange(
                        i,
                        i + m as int,
                    ) != sep@ by {
                        assert(t.subrange(i, i + m as int) =~= s@.subrange(
                            start + i,
                            start + i + m as int,
                        ));
                    }
                    lemma_split_at_first_match(t, sep@, k);
                    assert(t.subrange(0, k) =~= s@.subrange(start as int, j as int));
                    assert(t.subrange(k + m as int, t.len() as int) =~= s@.subrange(
                        j + m as int,
                        n as int,
                    ));
                    assert(str_views(r@.push(piece)) =~= str_views(r@) + seq![piece@]);
                    assert(str_views(r@) + (seq![piece@] + spec_split(
                        s@.subrange(j + m as int, n as int),
                        sep@,
                    )) =~= (str_views(r@) + seq![piece@]) + spec_split(
                        s@.subrange(j + m as int, n as int),
                        sep@,
                    ));
                }
                r.push(piece);
                start = j + m;
                j = start;
            } else {
                j = j + 1;
            }
        }
        proof {
            let t = s@.subrange(start as int, n as int);
            assert forall|i: int| 0 <= i <= t.len() - m implies #[trigger] t.subrange(
                i,
                i + m as int,
            ) != sep@ by {
                assert(start + i < j || start + i > n - m);
                assert(t.subrange(i, i + m as int) =~= s@.subrange(
                    start + i,
                    start + i + m as int,
                ));
            }
            lemma_split_no_match(t, sep@);
            assert(full == str_views(r@) + seq![t]);
        }
    } else {
        proof {
            lemma_split_no_match(s@, sep@);
            assert(full == str_views(r@) + seq![s@.subrange(start as int, n as int)]);
        }
    }
    let piece = s.substring_char(start, n).to_owned();
    proof {
        assert(str_views(r@.push(piece)) =~= str_views(r@) + seq![s@.subrange(
            start as int,
            n as int,
        )]);
    }
    r.push(piece);
    r
}

/// The pieces joined with a newline between each two.
pub open spec fn join_nl(pieces: Seq<Seq<char>>) -> Seq<char>
    decreases pieces.len(),
{
    if pieces.len() == 0 {
        Seq::empty()
    } else if pieces.len() == 1 {
        pieces[0]
    } else {
        pieces[0] + seq!['\n'] + join_nl(pieces.subrange(1, pieces.len() as int))
    }
}

/// Joining one more piece appends a newline and the piece.
pub proof fn lemma_join_push(pieces: Seq<Seq<char>>, p: Seq<char>)
    ensures
        join_nl(pieces.push(p)) == if pieces.len() == 0 {
            p
        } else {
            join_nl(pieces) + seq!['\n'] + p
        },
    decreases pieces.len(),
{
    let w = pieces.push(p);
    if pieces.len() == 0 {
        assert(w.len() == 1);
        assert(w[0] == p);
    } else if pieces.len() == 1 {
        assert(w.subrange(1, 2) =~= seq![p]);
        assert(join_nl(seq![p]) == p);
        assert(join_nl(w) == pieces[0] + seq!['\n'] + p);
    } else {
        let tail = pieces.subrange(1, pieces.len() as int);
        assert(w.subrange(1, w.len() as int) =~= tail.push(p));
        lemma_join_push(tail, p);
        assert(pieces[0] + seq!['\n'] + (join_nl(tail) + seq!['\n'] + p) =~= (pieces[0]
            + seq!['\n'] + join_nl(tail)) + seq!['\n'] + p);
    }
}

/// Joins the pieces with a newline between each two, per `join_nl`.
pub fn join_lines(pieces: &Vec<String>) -> (r: String)
    ensures
        r@ == join_nl(str_views(pieces@)),
{
    proof {
        reveal_strlit("\n");
        assert(("\n")@ =~= seq!['\n']);
    }
    let mut r = String::new();
    let mut i: usize = 0;
    while i < pieces.len()
        invariant
            0 <= i <= pieces@.len(),
            r@ == join_nl(str_views(pieces@.subrange(0, i as int))),
            ("\n")@ == seq!['\n'],
        decreases pieces@.len() - i,
    {
        proof {
            lemma_join_push(str_views(pieces@.subrange(0, i as int)), pieces@[i as int]@);
            assert(str_views(pieces@.subrange(0, i + 1)) =~= str_views(
                pieces@.subrange(0, i as int),
            ).push(pieces@[i as int]@));
        }
        if i > 0 {
            r.append("\n");
        }
        r.append(pieces[i].as_str());
        i = i + 1;
    }
    proof {
        assert(pieces@.subrange(0, pieces@.len() as int) =~= pieces@);
    }
    r
}

} // verus!
