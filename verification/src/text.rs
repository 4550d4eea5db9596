//! String routines on the `char` view of `str`: trimming, prefix tests and
//! slicing at a byte offset, each with the meaning std gives it.
use vstd::prelude::*;
use vstd::string::StringSliceAdditionalSpecFns;
use vstd::utf8::*;

verus! {

/// What `trim_matches` strips from both ends of a string.
#[derive(Clone, Copy, Debug, PartialEq, Eq, Structural)]
pub enum Pattern {
    /// Every character with the Unicode `White_Space` property, the set
    /// that `char::is_whitespace` (and so `str::trim`) strips.
    Whitespace,
    /// One given character, as `str::trim_matches(c)` strips it.
    Char(char),
}

/// The Unicode `White_Space` property.
pub open spec fn is_whitespace(c: char) -> bool {
    let u = c as u32;
    ||| 0x09 <= u <= 0x0d
    ||| u == 0x20
    ||| u == 0x85
    ||| u == 0xa0
    ||| u == 0x1680
    ||| 0x2000 <= u <= 0x200a
    ||| u == 0x2028
    ||| u == 0x2029
    ||| u == 0x202f
    ||| u == 0x205f
    ||| u == 0x3000
}

impl Pattern {
    pub open spec fn spec_matches(self, c: char) -> bool {
        match self {
            Pattern::Whitespace => is_whitespace(c),
            Pattern::Char(x) => c == x,
        }
    }

    /// Whether `c` is one of the characters this pattern strips.
    pub fn matches(&self, c: char) -> (r: bool)
        ensures
            r == self.spec_matches(c),
    {
        match self {
            Pattern::Whitespace => {
                let u = c as u32;
                (0x09 <= u && u <= 0x0d) || u == 0x20 || u == 0x85 || u == 0xa0 || u == 0x1680
                    || (0x2000 <= u && u <= 0x200a) || u == 0x2028 || u == 0x2029 || u == 0x202f
                    || u == 0x205f || u == 0x3000
            },
            Pattern::Char(x) => c == *x,
        }
    }
}

/// `s` with every leading character that `p` matches removed.
pub open spec fn trim_start(s: Seq<char>, p: Pattern) -> Seq<char>
    decreases s.len(),
{
    if s.len() > 0 && p.spec_matches(s[0]) {
        trim_start(s.drop_first(), p)
    } else {
        s
    }
}

/// `s` with every trailing character that `p` matches removed.
pub open spec fn trim_end(s: Seq<char>, p: Pattern) -> Seq<char>
    decreases s.len(),
{
    if s.len() > 0 && p.spec_matches(s.last()) {
        trim_end(s.drop_last(), p)
    } else {
        s
    }
}

/// `s` with all prefixes and suffixes that match `p` repeatedly removed.
pub open spec fn trimmed(s: Seq<char>, p: Pattern) -> Seq<char> {
    trim_end(trim_start(s, p), p)
}

/// The characters of `s` whose UTF-8 encoding starts at byte `k`: what
/// `&s[k..]` holds.
pub open spec fn after_bytes(s: Seq<char>, k: int) -> Seq<char> {
    decode_utf8(encode_utf8(s).subrange(k, encode_utf8(s).len() as int))
}

/// Whether `prefix` is an initial segment of `s`.
pub open spec fn has_prefix(s: Seq<char>, prefix: Seq<char>) -> bool {
    prefix.len() <= s.len() && s.subrange(0, prefix.len() as int) == prefix
}

/// `str::trim_matches`: `s` with every prefix and suffix matching `p`
/// removed; `str::trim` is `trim_matches(s, Pattern::Whitespace)`.
pub fn trim_matches(s: &str, p: Pattern) -> (r: &str)
    ensures
        r@ == trimmed(s@, p),
{
    let n = s.unicode_len();
    let mut i: usize = 0;
    assert(s@.subrange(0, n as int) =~= s@);
    loop
        invariant
            0 <= i <= n,
            n == s@.len(),
            trim_start(s@, p) == trim_start(s@.subrange(i as int, n as int), p),
        ensures
            0 <= i <= n,
            trim_start(s@, p) == trim_start(s@.subrange(i as int, n as int), p),
            i == n || !p.spec_matches(s@[i as int]),
        decreases n - i,
    {
        if i == n {
            break;
        }
        if !p.matches(s.get_char(i)) {
            break;
        }
        assert(s@.subrange(i as int, n as int).drop_first() =~= s@.subrange(i + 1, n as int));
        i = i + 1;
    }
    assert(trim_start(s@, p) == s@.subrange(i as int, n as int));
    let mut j: usize = n;
    loop
        invariant
            i <= j <= n,
            n == s@.len(),
            trim_start(s@, p) == s@.subrange(i as int, n as int),
            trimmed(s@, p) == trim_end(s@.subrange(i as int, j as int), p),
        ensures
            i <= j <= n,
            trimmed(s@, p) == trim_end(s@.subrange(i as int, j as int), p),
            j == i || !p.spec_matches(s@[j - 1]),
        decreases j - i,
    {
        if j == i {
            break;
        }
        if !p.matches(s.get_char(j - 1)) {
            break;
        }
        assert(s@.subrange(i as int, j as int).drop_last() =~= s@.subrange(i as int, j - 1));
        j = j - 1;
    }
    assert(trimmed(s@, p) == s@.subrange(i as int, j as int));
    s.substring_char(i, j)
}

/// `str::trim`: `s` without leading and trailing Unicode whitespace.
pub fn trim(s: &str) -> (r: &str)
    ensures
        r@ == trimmed(s@, Pattern::Whitespace),
{
    trim_matches(s, Pattern::Whitespace)
}

/// `str::starts_with` for a string prefix.
pub fn starts_with(s: &str, prefix: &str) -> (r: bool)
    ensures
        r == has_prefix(s@, prefix@),
{
    let n = s.unicode_len();
    let m = prefix.unicode_len();
    if m > n {
        return false;
    }
    let mut i: usize = 0;
    while i < m
        invariant
            i <= m <= n,
            n == s@.len(),
            m == prefix@.len(),
            forall|k: int| 0 <= k < i ==> s@[k] == prefix@[k],
        decreases m - i,
    {
        if s.get_char(i) != prefix.get_char(i) {
            assert(s@.subrange(0, m as int)[i as int] != prefix@[i as int]);
            return false;
        }
        i = i + 1;
    }
    assert(s@.subrange(0, m as int) =~= prefix@);
    true
}

/// `==` on the character sequences of two strings.
pub fn str_equal(a: &str, b: &str) -> (r: bool)
    ensures
        r == (a@ == b@),
{
    let same_start = starts_with(a, b);
    if same_start && a.unicode_len() == b.unicode_len() {
        assert(a@ =~= a@.subrange(0, b@.len() as int));
        true
    } else {
        proof {
            if a@ == b@ {
                assert(a@.subrange(0, b@.len() as int) =~= b@);
            }
        }
        false
    }
}

/// `&s[k..]`: the rest of `s` from byte `k` on, where `k` falls on a
/// character boundary (elsewhere the slice panics).
pub fn split_off_bytes(s: &str, k: usize) -> (r: &str)
    requires
        is_char_boundary(s.spec_bytes(), k as int),
    ensures
        r@ == after_bytes(s@, k as int),
{
    let (_, rest) = s.split_at(k);
    proof {
        encode_utf8_decode_utf8(rest@);
    }
    rest
}

/// `&s[k..]` where `k` counts characters.
pub fn skip_chars(s: &str, k: usize) -> (r: &str)
    requires
        k <= s@.len(),
    ensures
        r@ == s@.subrange(k as int, s@.len() as int),
{
    let n = s.unicode_len();
    s.substring_char(k, n)
}

/// What `trim_start` leaves does not begin with a matching character and
/// is a suffix of the input.
pub proof fn lemma_trim_start(s: Seq<char>, p: Pattern)
    ensures
        trim_start(s, p).len() <= s.len(),
        trim_start(s, p) == s.subrange(s.len() - trim_start(s, p).len(), s.len() as int),
        trim_start(s, p).len() > 0 ==> !p.spec_matches(trim_start(s, p)[0]),
        forall|k: int| 0 <= k < s.len() - trim_start(s, p).len() ==> p.spec_matches(#[trigger] s[k]),
    decreases s.len(),
{
    if s.len() > 0 && p.spec_matches(s[0]) {
        lemma_trim_start(s.drop_first(), p);
        let r = trim_start(s, p);
        assert forall|k: int| 0 <= k < s.len() - r.len() implies p.spec_matches(#[trigger] s[k]) by {
            if k > 0 {
                assert(s[k] == s.drop_first()[k - 1]);
            }
        }
        assert(s.drop_first().subrange(s.len() - 1 - r.len(), s.len() - 1) =~= s.subrange(
            s.len() - r.len(),
            s.len() as int,
        ));
    } else {
        assert(s.subrange(0, s.len() as int) =~= s);
    }
}

/// What `trim_end` leaves does not end with a matching character and is
/// a prefix of the input.
pub proof fn lemma_trim_end(s: Seq<char>, p: Pattern)
    ensures
        trim_end(s, p).len() <= s.len(),
        trim_end(s, p) == s.subrange(0, trim_end(s, p).len() as int),
        trim_end(s, p).len() > 0 ==> !p.spec_matches(trim_end(s, p).last()),
        trim_end(trim_end(s, p), p) == trim_end(s, p),
        forall|k: int| trim_end(s, p).len() <= k < s.len() ==> p.spec_matches(#[trigger] s[k]),
    decreases s.len(),
{
    if s.len() > 0 && p.spec_matches(s.last()) {
        lemma_trim_end(s.drop_last(), p);
        let r = trim_end(s, p);
        assert forall|k: int| r.len() <= k < s.len() implies p.spec_matches(#[trigger] s[k]) by {
            if k < s.len() - 1 {
                assert(s[k] == s.drop_last()[k]);
            }
        }
        assert(s.drop_last().subrange(0, r.len() as int) =~= s.subrange(0, r.len() as int));
    } else {
        assert(s.subrange(0, s.len() as int) =~= s);
    }
}

/// `trim_start` stops at the first character the pattern does not match.
pub proof fn lemma_trim_start_at(s: Seq<char>, p: Pattern, i: int)
    requires
        0 <= i <= s.len(),
        forall|k: int| 0 <= k < i ==> p.spec_matches(#[trigger] s[k]),
        i == s.len() || !p.spec_matches(s[i]),
    ensures
        trim_start(s, p) == s.subrange(i, s.len() as int),
    decreases i,
{
    if i == 0 {
        assert(s.subrange(0, s.len() as int) =~= s);
    } else {
        let t = s.drop_first();
        assert(p.spec_matches(s[0]));
        assert forall|k: int| 0 <= k < i - 1 implies p.spec_matches(#[trigger] t[k]) by {
            assert(t[k] == s[k + 1]);
        }
        if i < s.len() {
            assert(t[i - 1] == s[i]);
        }
        lemma_trim_start_at(t, p, i - 1);
        assert(t.subrange(i - 1, t.len() as int) =~= s.subrange(i, s.len() as int));
    }
}

/// `trim_end` stops after the last character the pattern does not match.
pub proof fn lemma_trim_end_at(s: Seq<char>, p: Pattern, j: int)
    requires
        0 <= j <= s.len(),
        forall|k: int| j <= k < s.len() ==> p.spec_matches(#[trigger] s[k]),
        j == 0 || !p.spec_matches(s[j - 1]),
    ensures
        trim_end(s, p) == s.subrange(0, j),
    decreases s.len() - j,
{
    if j == s.len() {
        if s.len() > 0 {
            assert(s.last() == s[j - 1]);
        }
        assert(s.subrange(0, s.len() as int) =~= s);
    } else {
        let t = s.drop_last();
        assert(p.spec_matches(s[s.len() - 1]));
        assert forall|k: int| j <= k < t.len() implies p.spec_matches(#[trigger] t[k]) by {
            assert(t[k] == s[k]);
        }
        if j > 0 {
            assert(t[j - 1] == s[j - 1]);
        }
        lemma_trim_end_at(t, p, j);
        assert(t.subrange(0, j) =~= s.subrange(0, j));
    }
}

/// `trimmed` keeps the stretch between the first and the last character
/// the pattern does not match.
pub proof fn lemma_trimmed_at(s: Seq<char>, p: Pattern, i: int, j: int)
    requires
        0 <= i <= j <= s.len(),
        forall|k: int| 0 <= k < i ==> p.spec_matches(#[trigger] s[k]),
        forall|k: int| j <= k < s.len() ==> p.spec_matches(#[trigger] s[k]),
        i < j ==> !p.spec_matches(s[i]) && !p.spec_matches(s[j - 1]),
        i == j ==> forall|k: int| 0 <= k < s.len() ==> p.spec_matches(#[trigger] s[k]),
    ensures
        trimmed(s, p) == s.subrange(i, j),
{
    if i < j {
        lemma_trim_start_at(s, p, i);
        let u = s.subrange(i, s.len() as int);
        assert forall|k: int| j - i <= k < u.len() implies p.spec_matches(#[trigger] u[k]) by {
            assert(u[k] == s[k + i]);
        }
        assert(u[j - i - 1] == s[j - 1]);
        lemma_trim_end_at(u, p, j - i);
        assert(u.subrange(0, j - i) =~= s.subrange(i, j));
    } else {
        lemma_trim_start_at(s, p, s.len() as int);
        lemma_trim_end_at(s.subrange(s.len() as int, s.len() as int), p, 0);
        assert(s.subrange(i, j) =~= Seq::<char>::empty());
        assert(s.subrange(s.len() as int, s.len() as int).subrange(0, 0) =~= Seq::<char>::empty());
    }
}

/// `trimmed` is the stretch of `s` between a matching prefix and a
/// matching suffix that neither begins nor ends with a match.
pub proof fn lemma_trimmed_middle(s: Seq<char>, p: Pattern) -> (ij: (int, int))
    ensures
        0 <= ij.0 <= ij.1 <= s.len(),
        trimmed(s, p) == s.subrange(ij.0, ij.1),
        forall|k: int| 0 <= k < ij.0 ==> p.spec_matches(#[trigger] s[k]),
        forall|k: int| ij.1 <= k < s.len() ==> p.spec_matches(#[trigger] s[k]),
        ij.0 < ij.1 ==> !p.spec_matches(s[ij.0]) && !p.spec_matches(s[ij.1 - 1]),
{
    lemma_trim_start(s, p);
    let u = trim_start(s, p);
    let i = s.len() - u.len();
    lemma_trim_end(u, p);
    let r = trim_end(u, p);
    let j = i + r.len();
    assert forall|k: int| j <= k < s.len() implies p.spec_matches(#[trigger] s[k]) by {
        assert(s[k] == u[k - i]);
    }
    assert(r =~= s.subrange(i, j)) by {
        assert forall|k: int| 0 <= k < r.len() implies r[k] == s[i + k] by {
            assert(r[k] == u.subrange(0, r.len() as int)[k]);
        }
    }
    if r.len() > 0 {
        assert(r[0] == u[0]);
    }
    (i, j)
}

/// A trimmed string neither begins nor ends with a character the pattern
/// matches.
pub proof fn lemma_trimmed_borders(s: Seq<char>, p: Pattern)
    ensures
        trimmed(s, p).len() > 0 ==> !p.spec_matches(trimmed(s, p)[0]) && !p.spec_matches(
            trimmed(s, p).last(),
        ),
{
    let u = trim_start(s, p);
    lemma_trim_start(s, p);
    lemma_trim_end(u, p);
    let r = trim_end(u, p);
    if r.len() > 0 {
        assert(r[0] == u.subrange(0, r.len() as int)[0]);
    }
}

/// The UTF-8 encoding of a concatenation is the concatenation of the
/// encodings.
pub proof fn lemma_encode_utf8_concat(a: Seq<char>, b: Seq<char>)
    ensures
        encode_utf8(a + b) == encode_utf8(a) + encode_utf8(b),
    decreases a.len(),
{
    if a.len() == 0 {
        assert(a + b =~= b);
        assert(encode_utf8(a) + encode_utf8(b) =~= encode_utf8(b));
    } else {
        assert((a + b).drop_first() =~= a.drop_first() + b);
        lemma_encode_utf8_concat(a.drop_first(), b);
        assert(encode_utf8(a + b) =~= encode_utf8(a) + encode_utf8(b));
    }
}

} // verus!
