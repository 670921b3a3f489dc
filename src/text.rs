//! Character-level helpers shared by the codecs: whitespace, trimming,
//! line and word splitting.
use vstd::prelude::*;
use vstd::string::*;
use vstd::std_specs::iter::IteratorSpec;

verus! {

broadcast use vstd::string::group_string_axioms;

/// The carriage-return, line-feed pair that ends every line on the wire.
pub open spec fn crlf() -> Seq<char> {
    seq!['\r', '\n']
}

/// Unicode `White_Space`: the characters that split words and that trimming removes.
pub open spec fn is_space(c: char) -> bool {
    let u = c as u32;
    (9 <= u && u <= 13) || u == 32 || u == 0x85 || u == 0xA0 || u == 0x1680 || (0x2000 <= u
        && u <= 0x200A) || u == 0x2028 || u == 0x2029 || u == 0x202F || u == 0x205F || u == 0x3000
}

pub fn space(c: char) -> (r: bool)
    ensures
        r == is_space(c),
{
    let u = c as u32;
    (9 <= u && u <= 13) || u == 32 || u == 0x85 || u == 0xA0 || u == 0x1680 || (0x2000 <= u
        && u <= 0x200A) || u == 0x2028 || u == 0x2029 || u == 0x202F || u == 0x205F || u == 0x3000
}

/// No character of `s` is whitespace.
pub open spec fn no_space(s: Seq<char>) -> bool {
    forall|i: int| 0 <= i < s.len() ==> !is_space(#[trigger] s[i])
}

/// Length of the run of non-space characters that starts `s`.
pub open spec fn token_len(s: Seq<char>) -> nat
    decreases s.len(),
{
    if s.len() == 0 || is_space(s[0]) {
        0
    } else {
        1 + token_len(s.drop_first())
    }
}

pub proof fn lemma_token_len(s: Seq<char>)
    ensures
        token_len(s) <= s.len(),
        s.len() > 0 && !is_space(s[0]) ==> token_len(s) > 0,
    decreases s.len(),
{
    if s.len() > 0 && !is_space(s[0]) {
        lemma_token_len(s.drop_first());
    }
}

pub proof fn lemma_token_len_exact(s: Seq<char>, n: int)
    requires
        0 <= n <= s.len(),
        forall|k: int| 0 <= k < n ==> !is_space(#[trigger] s[k]),
        n == s.len() || is_space(s[n]),
    ensures
        token_len(s) == n,
    decreases n,
{
    if n > 0 {
        let t = s.drop_first();
        assert forall|k: int| 0 <= k < n - 1 implies !is_space(#[trigger] t[k]) by {
            assert(t[k] == s[k + 1]);
        }
        lemma_token_len_exact(t, n - 1);
    }
}

/// The whitespace-separated words of `s`, in order; no word is empty.
pub open spec fn words(s: Seq<char>) -> Seq<Seq<char>>
    decreases s.len(),
{
    if s.len() == 0 {
        seq![]
    } else if is_space(s[0]) {
        words(s.drop_first())
    } else {
        let n = token_len(s);
        proof {
            lemma_token_len(s);
        }
        seq![s.take(n as int)] + words(s.skip(n as int))
    }
}

/// `s` with leading whitespace removed.
pub open spec fn trim_start(s: Seq<char>) -> Seq<char>
    decreases s.len(),
{
    if s.len() > 0 && is_space(s[0]) {
        trim_start(s.drop_first())
    } else {
        s
    }
}

/// `s` with trailing whitespace removed.
pub open spec fn trim_end(s: Seq<char>) -> Seq<char>
    decreases s.len(),
{
    if s.len() > 0 && is_space(s.last()) {
        trim_end(s.drop_last())
    } else {
        s
    }
}

/// `s` with whitespace removed at both ends.
pub open spec fn trim(s: Seq<char>) -> Seq<char> {
    trim_end(trim_start(s))
}

/// `s` neither starts nor ends with whitespace.
pub open spec fn is_trimmed(s: Seq<char>) -> bool {
    s.len() > 0 ==> !is_space(s[0]) && !is_space(s.last())
}

/// A line break starts at position `k` of `s`.
pub open spec fn crlf_at(s: Seq<char>, k: int) -> bool {
    0 <= k && k + 1 < s.len() && s[k] == '\r' && s[k + 1] == '\n'
}

/// `s` holds no line break.
pub open spec fn no_crlf(s: Seq<char>) -> bool {
    forall|k: int| !#[trigger] crlf_at(s, k)
}

/// Length of the first line of `s`: the position of the first line break, or the length of `s`.
pub open spec fn line_len(s: Seq<char>) -> nat
    decreases s.len(),
{
    if s.len() == 0 || crlf_at(s, 0) {
        0
    } else {
        1 + line_len(s.drop_first())
    }
}

pub proof fn lemma_line_len(s: Seq<char>)
    ensures
        line_len(s) <= s.len(),
        line_len(s) < s.len() ==> crlf_at(s, line_len(s) as int),
        forall|k: int| 0 <= k < line_len(s) ==> !#[trigger] crlf_at(s, k),
    decreases s.len(),
{
    if s.len() > 0 && !crlf_at(s, 0) {
        let t = s.drop_first();
        lemma_line_len(t);
        assert forall|k: int| 0 <= k < line_len(s) implies !#[trigger] crlf_at(s, k) by {
            if k > 0 {
                assert(crlf_at(s, k) == crlf_at(t, k - 1));
            }
        }
        if line_len(s) < s.len() {
            assert(crlf_at(t, line_len(t) as int));
        }
    }
}

pub proof fn lemma_line_len_exact(s: Seq<char>, n: int)
    requires
        0 <= n <= s.len(),
        forall|k: int| 0 <= k < n ==> !#[trigger] crlf_at(s, k),
        n == s.len() || crlf_at(s, n),
    ensures
        line_len(s) == n,
    decreases n,
{
    if n > 0 {
        let t = s.drop_first();
        assert(!crlf_at(s, 0));
        assert forall|k: int| 0 <= k < n - 1 implies !#[trigger] crlf_at(t, k) by {
            assert(crlf_at(s, k + 1) == crlf_at(t, k));
        }
        if n < s.len() {
            assert(crlf_at(s, n) == crlf_at(t, n - 1));
        }
        lemma_line_len_exact(t, n - 1);
    } else if n == s.len() {
    }
}

/// The CRLF-separated lines of `s`; there is always at least one.
pub open spec fn lines(s: Seq<char>) -> Seq<Seq<char>>
    decreases s.len(),
{
    let n = line_len(s);
    proof {
        lemma_line_len(s);
    }
    if n >= s.len() {
        seq![s]
    } else {
        seq![s.take(n as int)] + lines(s.skip(n + 2int))
    }
}

/// The lines `ls` joined with line breaks between them.
pub open spec fn join_lines(ls: Seq<Seq<char>>) -> Seq<char>
    decreases ls.len(),
{
    if ls.len() == 0 {
        seq![]
    } else if ls.len() == 1 {
        ls[0]
    } else {
        ls[0] + crlf() + join_lines(ls.drop_first())
    }
}

/// The characters of `s`, in order.
pub fn chars_of(s: &str) -> (r: Vec<char>)
    ensures
        r@ == s@,
{
    let mut it = s.chars();
    let mut out: Vec<char> = Vec::new();
    loop
        invariant
            out@ + it.remaining() == s@,
            it.decrease() is Some,
        ensures
            out@ == s@,
        decreases it.decrease()->0,
    {
        let ghost before = it;
        match it.next() {
            Some(c) => {
                proof {
                    assert(next_post(&before, &it, Some(c)));
                }
                out.push(c);
            },
            None => {
                proof {
                    assert(next_post(&before, &it, None));
                    assert(out@ + it.remaining() =~= out@);
                }
                break ;
            },
        }
    }
    out
}

/// Whether two texts are equal.
pub fn same_text(a: &str, b: &str) -> (r: bool)
    ensures
        r == (a@ == b@),
{
    a.to_owned() == b.to_owned()
}

/// The lower-case form of a text, as `str::to_lowercase` gives it.
pub uninterp spec fn lower_of(s: Seq<char>) -> Seq<char>;

/// Relies on `str::to_lowercase`: the lower-case mapping of Unicode, which depends on the
/// characters alone.
#[verifier::external_body]
pub fn lowercase(s: &str) -> (r: String)
    ensures
        r@ == lower_of(s@),
{
    s.to_lowercase()
}

/// The characters of `s` from position `a` up to position `b`, as a new string.
pub fn slice_string(s: &str, a: usize, b: usize) -> (r: String)
    requires
        a <= b <= s@.len(),
    ensures
        r@ == s@.subrange(a as int, b as int),
{
    s.substring_char(a, b).to_owned()
}


/// The character views of a sequence of strings.
pub open spec fn views(s: Seq<String>) -> Seq<Seq<char>> {
    s.map_values(|x: String| x@)
}

/// Position of the first `c` in `s`, or the length of `s` when there is none.
pub open spec fn char_pos(s: Seq<char>, c: char) -> nat
    decreases s.len(),
{
    if s.len() == 0 || s[0] == c {
        0
    } else {
        1 + char_pos(s.drop_first(), c)
    }
}

pub proof fn lemma_char_pos_exact(s: Seq<char>, c: char, n: int)
    requires
        0 <= n <= s.len(),
        forall|k: int| 0 <= k < n ==> #[trigger] s[k] != c,
        n == s.len() || s[n] == c,
    ensures
        char_pos(s, c) == n,
    decreases n,
{
    if n > 0 {
        let t = s.drop_first();
        assert forall|k: int| 0 <= k < n - 1 implies #[trigger] t[k] != c by {
            assert(t[k] == s[k + 1]);
        }
        lemma_char_pos_exact(t, c, n - 1);
    }
}

pub proof fn lemma_char_pos_bound(s: Seq<char>, c: char)
    ensures
        char_pos(s, c) <= s.len(),
        char_pos(s, c) < s.len() ==> s[char_pos(s, c) as int] == c,
        forall|k: int| 0 <= k < char_pos(s, c) ==> #[trigger] s[k] != c,
    decreases s.len(),
{
    if s.len() > 0 && s[0] != c {
        let t = s.drop_first();
        lemma_char_pos_bound(t, c);
        assert forall|k: int| 0 <= k < char_pos(s, c) implies #[trigger] s[k] != c by {
            if k > 0 {
                assert(s[k] == t[k - 1]);
            }
        }
    }
}

/// The pieces of `s` between occurrences of `c`; there is always at least one.
pub open spec fn split_on(s: Seq<char>, c: char) -> Seq<Seq<char>>
    decreases s.len(),
{
    let n = char_pos(s, c);
    proof {
        lemma_char_pos_bound(s, c);
    }
    if n >= s.len() {
        seq![s]
    } else {
        seq![s.take(n as int)] + split_on(s.skip(n + 1int), c)
    }
}

/// The pieces of `v` between `a` and `b` that occurrences of `c` separate, as strings.
pub fn split_in(s: &str, v: &Vec<char>, a: usize, b: usize, c: char) -> (r: Vec<String>)
    requires
        v@ == s@,
        a <= b <= v@.len(),
    ensures
        views(r@) == split_on(v@.subrange(a as int, b as int), c),
{
    let mut out: Vec<String> = Vec::new();
    let mut p = a;
    loop
        invariant
            a <= p <= b,
            b <= v@.len(),
            v@ == s@,
            views(out@) + split_on(v@.subrange(p as int, b as int), c) == split_on(
                v@.subrange(a as int, b as int),
                c,
            ),
        decreases b - p,
    {
        let e = find_char(v, p, b, c);
        let piece = slice_string(s, p, e);
        let ghost rest = v@.subrange(p as int, b as int);
        let ghost before = out@;
        out.push(piece);
        proof {
            lemma_char_pos_bound(rest, c);
            assert(rest.take(e - p) =~= v@.subrange(p as int, e as int));
            assert(views(out@) =~= views(before).push(v@.subrange(p as int, e as int)));
        }
        if e == b {
            proof {
                assert(split_on(rest, c) == seq![rest]);
                assert(rest =~= v@.subrange(p as int, e as int));
                assert(views(out@) =~= views(before) + split_on(rest, c));
            }
            return out;
        }
        proof {
            assert(rest.skip(e - p + 1) =~= v@.subrange(e + 1, b as int));
            assert(views(out@) + split_on(v@.subrange(e + 1, b as int), c) =~= views(before)
                + split_on(rest, c));
        }
        p = e + 1;
    }
}

/// End of the line that starts at `p`: the position of the next line break, or the end.
pub fn line_end(v: &Vec<char>, p: usize) -> (e: usize)
    requires
        p <= v@.len(),
    ensures
        e == p + line_len(v@.skip(p as int)),
        e <= v@.len(),
        e < v@.len() ==> crlf_at(v@, e as int),
{
    let n = v.len();
    let mut j = p;
    while j < n && !(j + 1 < n && v[j] == '\r' && v[j + 1] == '\n')
        invariant
            p <= j <= n,
            n == v@.len(),
            forall|k: int| p <= k < j ==> !#[trigger] crlf_at(v@, k),
        decreases n - j,
    {
        j = j + 1;
    }
    proof {
        let t = v@.skip(p as int);
        assert forall|k: int| 0 <= k < j - p implies !#[trigger] crlf_at(t, k) by {
            assert(crlf_at(v@, k + p) == crlf_at(t, k));
        }
        if j < n {
            assert(crlf_at(v@, j as int) == crlf_at(t, j - p));
        }
        lemma_line_len_exact(t, j - p);
    }
    j
}

/// Position of the first `c` in `v` between `a` and `b`, or `b` when there is none.
pub fn find_char(v: &Vec<char>, a: usize, b: usize, c: char) -> (r: usize)
    requires
        a <= b <= v@.len(),
    ensures
        r == a + char_pos(v@.subrange(a as int, b as int), c),
        a <= r <= b,
{
    let mut j = a;
    while j < b && v[j] != c
        invariant
            a <= j <= b,
            b <= v@.len(),
            forall|k: int| a <= k < j ==> #[trigger] v@[k] != c,
        decreases b - j,
    {
        j = j + 1;
    }
    proof {
        let t = v@.subrange(a as int, b as int);
        assert forall|k: int| 0 <= k < j - a implies #[trigger] t[k] != c by {
            assert(t[k] == v@[k + a]);
        }
        lemma_char_pos_exact(t, c, j - a);
    }
    j
}

pub proof fn lemma_trim_start_exact(s: Seq<char>, n: int)
    requires
        0 <= n <= s.len(),
        forall|k: int| 0 <= k < n ==> is_space(#[trigger] s[k]),
        n == s.len() || !is_space(s[n]),
    ensures
        trim_start(s) == s.skip(n),
    decreases n,
{
    if n > 0 {
        let t = s.drop_first();
        assert forall|k: int| 0 <= k < n - 1 implies is_space(#[trigger] t[k]) by {
            assert(t[k] == s[k + 1]);
        }
        lemma_trim_start_exact(t, n - 1);
        assert(t.skip(n - 1) =~= s.skip(n));
    } else {
        assert(s.skip(0) =~= s);
    }
}

pub proof fn lemma_trim_end_exact(s: Seq<char>, n: int)
    requires
        0 <= n <= s.len(),
        forall|k: int| n <= k < s.len() ==> is_space(#[trigger] s[k]),
        n == 0 || !is_space(s[n - 1]),
    ensures
        trim_end(s) == s.take(n),
    decreases s.len() - n,
{
    if n < s.len() {
        let t = s.drop_last();
        assert forall|k: int| n <= k < t.len() implies is_space(#[trigger] t[k]) by {
            assert(t[k] == s[k]);
        }
        lemma_trim_end_exact(t, n);
        assert(t.take(n) =~= s.take(n));
    } else {
        assert(s.take(n) =~= s);
    }
}

/// The part of `v` between `a` and `b` with whitespace removed at both ends, as a range.
pub fn trim_range(v: &Vec<char>, a: usize, b: usize) -> (r: (usize, usize))
    requires
        a <= b <= v@.len(),
    ensures
        a <= r.0 <= r.1 <= b,
        v@.subrange(r.0 as int, r.1 as int) == trim(v@.subrange(a as int, b as int)),
{
    let mut i = a;
    while i < b && space(v[i])
        invariant
            a <= i <= b,
            b <= v@.len(),
            forall|k: int| a <= k < i ==> is_space(#[trigger] v@[k]),
        decreases b - i,
    {
        i = i + 1;
    }
    let mut j = b;
    while j > i && space(v[j - 1])
        invariant
            a <= i <= j <= b,
            b <= v@.len(),
            forall|k: int| j <= k < b ==> is_space(#[trigger] v@[k]),
        decreases j - i,
    {
        j = j - 1;
    }
    proof {
        let s = v@.subrange(a as int, b as int);
        assert forall|k: int| 0 <= k < i - a implies is_space(#[trigger] s[k]) by {
            assert(s[k] == v@[k + a]);
        }
        if i < b {
            assert(s[i - a] == v@[i as int]);
        }
        lemma_trim_start_exact(s, i - a);
        let t = s.skip(i - a);
        assert(t =~= v@.subrange(i as int, b as int));
        assert forall|k: int| j - i <= k < t.len() implies is_space(#[trigger] t[k]) by {
            assert(t[k] == v@[k + i]);
        }
        if j > i {
            assert(t[j - i - 1] == v@[j - 1]);
        }
        lemma_trim_end_exact(t, j - i);
        assert(t.take(j - i) =~= v@.subrange(i as int, j as int));
    }
    (i, j)
}

/// The words of `v` between `a` and `b`, as strings.
pub fn words_in(s: &str, v: &Vec<char>, a: usize, b: usize) -> (r: Vec<String>)
    requires
        v@ == s@,
        a <= b <= v@.len(),
    ensures
        views(r@) == words(v@.subrange(a as int, b as int)),
{
    let mut out: Vec<String> = Vec::new();
    let mut i = a;
    while i < b
        invariant
            a <= i <= b,
            b <= v@.len(),
            v@ == s@,
            views(out@) + words(v@.subrange(i as int, b as int)) == words(
                v@.subrange(a as int, b as int),
            ),
        decreases b - i,
    {
        let ghost rest = v@.subrange(i as int, b as int);
        if space(v[i]) {
            proof {
                assert(rest.drop_first() =~= v@.subrange(i + 1, b as int));
            }
            i = i + 1;
        } else {
            let mut j = i + 1;
            while j < b && !space(v[j])
                invariant
                    i < j <= b,
                    b <= v@.len(),
                    forall|k: int| i <= k < j ==> !is_space(#[trigger] v@[k]),
                decreases b - j,
            {
                j = j + 1;
            }
            let w = slice_string(s, i, j);
            proof {
                assert forall|k: int| 0 <= k < j - i implies !is_space(#[trigger] rest[k]) by {
                    assert(rest[k] == v@[k + i]);
                }
                if j < b {
                    assert(rest[j - i] == v@[j as int]);
                }
                lemma_token_len_exact(rest, j - i);
                assert(rest.take(j - i) =~= v@.subrange(i as int, j as int));
                assert(rest.skip(j - i) =~= v@.subrange(j as int, b as int));
                assert(views(out@.push(w)) =~= views(out@).push(w@));
                assert(words(rest) == seq![rest.take(j - i)] + words(rest.skip(j - i)));
                assert(views(out@.push(w)) + words(v@.subrange(j as int, b as int)) =~= views(out@)
                    + words(rest));
            }
            out.push(w);
            i = j;
        }
    }
    proof {
        assert(v@.subrange(i as int, b as int) =~= Seq::<char>::empty());
        assert(views(out@) + Seq::<Seq<char>>::empty() =~= views(out@));
    }
    out
}

} // verus!
