//! Characters and slices of text.
//!
//! Text is modelled as `Seq<char>`, the view of `str` and `String`. The
//! executable functions scan a `Vec<char>` between two indices, so that a
//! caller decodes a string once and then measures it as often as it needs.

use vstd::prelude::*;

verus! {

/// Whether `c` is white space: the code points that Unicode gives the
/// property `White_Space`.
pub open spec fn is_whitespace(c: char) -> bool {
    let u = c as u32;
    ||| 0x09 <= u <= 0x0d
    ||| u == 0x20
    ||| u == 0x85
    ||| u == 0xa0
    ||| u == 0x1680
    ||| 0x2000 <= u <= 0x200a
    ||| u == 0x2028
    ||| u == 0x2029
    ||| u == 0x202f
    ||| u == 0x205f
    ||| u == 0x3000
}

/// Tells whether a character is white space.
pub fn whitespace(c: char) -> (b: bool)
    ensures
        b == is_whitespace(c),
{
    let u: u32 = c as u32;
    (0x09 <= u && u <= 0x0d) || u == 0x20 || u == 0x85 || u == 0xa0 || u == 0x1680 || (0x2000 <= u
        && u <= 0x200a) || u == 0x2028 || u == 0x2029 || u == 0x202f || u == 0x205f || u == 0x3000
}

/// What a scan looks for.
#[derive(Clone, Copy, Debug)]
pub enum Pattern {
    /// Any white space character.
    Whitespace,
    /// Any character that is not white space.
    Visible,
    /// One given character.
    Char(char),
}

impl Pattern {
    /// Whether `c` is what the pattern looks for.
    pub open spec fn accepts(self, c: char) -> bool {
        match self {
            Pattern::Whitespace => is_whitespace(c),
            Pattern::Visible => !is_whitespace(c),
            Pattern::Char(d) => c == d,
        }
    }

    /// Tells whether `c` is what the pattern looks for.
    pub fn test(self, c: char) -> (b: bool)
        ensures
            b == self.accepts(c),
    {
        match self {
            Pattern::Whitespace => whitespace(c),
            Pattern::Visible => !whitespace(c),
            Pattern::Char(d) => c == d,
        }
    }
}

/// The index of the first character of `s` that `p` accepts, or the length of
/// `s` where there is none.
pub open spec fn find(s: Seq<char>, p: Pattern) -> int
    decreases s.len(),
{
    if s.len() == 0 {
        0
    } else if p.accepts(s[0]) {
        0
    } else {
        1 + find(s.drop_first(), p)
    }
}

/// Whether `k` is where `find` stops in `s`: nothing before `k` is accepted,
/// and `k` is the end of `s` or holds an accepted character.
pub open spec fn is_first(s: Seq<char>, p: Pattern, k: int) -> bool {
    &&& 0 <= k <= s.len()
    &&& forall|i: int| 0 <= i < k ==> !p.accepts(#[trigger] s[i])
    &&& k < s.len() ==> p.accepts(s[k])
}

/// `find` stops at the first accepted character.
pub proof fn lemma_find(s: Seq<char>, p: Pattern)
    ensures
        is_first(s, p, find(s, p)),
    decreases s.len(),
{
    if s.len() > 0 && !p.accepts(s[0]) {
        let t = s.drop_first();
        lemma_find(t, p);
        let k = find(s, p);
        assert forall|i: int| 0 <= i < k implies !p.accepts(#[trigger] s[i]) by {
            if i > 0 {
                assert(s[i] == t[i - 1]);
            }
        }
        if k < s.len() {
            assert(s[k] == t[k - 1]);
        }
    }
}

/// No other index has the property that `find` has.
pub proof fn lemma_find_unique(s: Seq<char>, p: Pattern, k: int)
    requires
        is_first(s, p, k),
    ensures
        find(s, p) == k,
{
    lemma_find(s, p);
    let f = find(s, p);
    if f < k {
        assert(!p.accepts(s[f]));
    } else if k < f {
        assert(!p.accepts(s[k]));
    }
}

/// The length of `s` without the white space at its end.
pub open spec fn visible_len(s: Seq<char>) -> int
    decreases s.len(),
{
    if s.len() == 0 {
        0
    } else if !is_whitespace(s.last()) {
        s.len() as int
    } else {
        visible_len(s.drop_last())
    }
}

/// Whether `k` is where the white space at the end of `s` begins.
pub open spec fn is_visible_len(s: Seq<char>, k: int) -> bool {
    &&& 0 <= k <= s.len()
    &&& forall|i: int| k <= i < s.len() ==> is_whitespace(#[trigger] s[i])
    &&& k > 0 ==> !is_whitespace(s[k - 1])
}

/// `visible_len` ends right behind the last visible character.
pub proof fn lemma_visible_len(s: Seq<char>)
    ensures
        is_visible_len(s, visible_len(s)),
    decreases s.len(),
{
    if s.len() > 0 && is_whitespace(s.last()) {
        let t = s.drop_last();
        lemma_visible_len(t);
        let k = visible_len(s);
        assert forall|i: int| k <= i < s.len() implies is_whitespace(#[trigger] s[i]) by {
            if i < t.len() {
                assert(s[i] == t[i]);
            }
        }
        if k > 0 {
            assert(s[k - 1] == t[k - 1]);
        }
    }
}

/// No other index has the property that `visible_len` has.
pub proof fn lemma_visible_len_unique(s: Seq<char>, k: int)
    requires
        is_visible_len(s, k),
    ensures
        visible_len(s) == k,
{
    lemma_visible_len(s);
    let f = visible_len(s);
    if f < k {
        assert(is_whitespace(s[k - 1]));
    } else if k < f {
        assert(is_whitespace(s[f - 1]));
    }
}

/// `s` without the white space at its start.
pub open spec fn trim_start(s: Seq<char>) -> Seq<char> {
    s.skip(find(s, Pattern::Visible))
}

/// `s` without the white space at its end.
pub open spec fn trim_end(s: Seq<char>) -> Seq<char> {
    s.take(visible_len(s))
}

/// `s` without the white space at its start and at its end.
pub open spec fn trim(s: Seq<char>) -> Seq<char> {
    trim_end(trim_start(s))
}

/// What is left of a text after `trim` is a piece of the text that neither
/// begins nor ends with white space.
pub proof fn lemma_trim_is_bare(s: Seq<char>)
    ensures
        trim(s).len() > 0 ==> !is_whitespace(trim(s).first()) && !is_whitespace(trim(s).last()),
        exists|from: int, to: int| 0 <= from <= to <= s.len() && trim(s) == s.subrange(from, to),
{
    lemma_find(s, Pattern::Visible);
    let from = find(s, Pattern::Visible);
    let t = trim_start(s);
    lemma_visible_len(t);
    let n = visible_len(t);
    if n > 0 {
        assert(t[0] == s[from]);
        assert(trim(s).first() == t[0]);
        assert(trim(s).last() == t[n - 1]);
    }
    assert(trim(s) =~= s.subrange(from, from + n));
}

/// The views of texts.
pub open spec fn text_views(texts: Seq<String>) -> Seq<Seq<char>> {
    Seq::new(texts.len(), |i: int| texts[i]@)
}

/// The characters of `s`, in order.
pub fn to_chars(s: &str) -> (chars: Vec<char>)
    ensures
        chars@ == s@,
{
    let mut out: Vec<char> = Vec::new();
    for c in it: s.chars()
        invariant
            it.seq() == s@,
            out@ == s@.take(it.index() as int),
    {
        out.push(c);
    }
    out
}

/// The characters of `s` from index `from` up to `to`, as a string of their
/// own. Takes time in proportion to `to`.
pub(crate) fn slice(s: &str, from: usize, to: usize) -> (piece: String)
    requires
        from <= to <= s@.len(),
    ensures
        piece@ == s@.subrange(from as int, to as int),
{
    s.substring_char(from, to).to_owned()
}

/// Looks for the first character that `p` accepts among `chars[from..to]`, and
/// returns its index, or `to` where there is none.
pub(crate) fn scan(chars: &Vec<char>, from: usize, to: usize, p: Pattern) -> (k: usize)
    requires
        from <= to <= chars.len(),
    ensures
        from <= k <= to,
        k == from + find(chars@.subrange(from as int, to as int), p),
{
    let mut k: usize = from;
    while k < to && !p.test(chars[k])
        invariant
            from <= k <= to <= chars.len(),
            forall|i: int| from <= i < k ==> !p.accepts(#[trigger] chars@[i]),
        decreases to - k,
    {
        k += 1;
    }
    proof {
        let part = chars@.subrange(from as int, to as int);
        assert forall|i: int| 0 <= i < k - from implies !p.accepts(#[trigger] part[i]) by {
            assert(part[i] == chars@[from + i]);
        }
        lemma_find_unique(part, p, k - from);
    }
    k
}

/// Looks for the end of the last visible character among `chars[from..to]`:
/// the index behind which only white space follows up to `to`.
pub(crate) fn scan_back(chars: &Vec<char>, from: usize, to: usize) -> (k: usize)
    requires
        from <= to <= chars.len(),
    ensures
        from <= k <= to,
        k == from + visible_len(chars@.subrange(from as int, to as int)),
{
    let mut k: usize = to;
    while k > from && whitespace(chars[k - 1])
        invariant
            from <= k <= to <= chars.len(),
            forall|i: int| k <= i < to ==> is_whitespace(#[trigger] chars@[i]),
        decreases k,
    {
        k -= 1;
    }
    proof {
        let part = chars@.subrange(from as int, to as int);
        assert forall|i: int| k - from <= i < part.len() implies is_whitespace(
            #[trigger] part[i],
        ) by {
            assert(part[i] == chars@[from + i]);
        }
        lemma_visible_len_unique(part, k - from);
    }
    k
}

/// `s` without the white space at its start and at its end.
pub fn trimmed(s: &str) -> (bare: String)
    ensures
        bare@ == trim(s@),
{
    let chars = to_chars(s);
    let n = chars.len();
    let from = scan(&chars, 0, n, Pattern::Visible);
    let to = scan_back(&chars, from, n);
    proof {
        assert(chars@.subrange(0, n as int) =~= s@);
        assert(chars@.subrange(from as int, n as int) =~= trim_start(s@));
        assert(s@.subrange(from as int, to as int) =~= trim(s@));
    }
    slice(s, from, to)
}

/// Whether `chars` spells `word`.
pub fn spells(chars: &Vec<char>, word: &str) -> (b: bool)
    ensures
        b == (chars@ == word@),
{
    let letters = to_chars(word);
    if letters.len() != chars.len() {
        return false;
    }
    let mut i: usize = 0;
    while i < letters.len()
        invariant
            letters@ == word@,
            letters.len() == chars.len(),
            i <= letters.len(),
            forall|j: int| 0 <= j < i ==> chars@[j] == letters@[j],
        decreases letters.len() - i,
    {
        if chars[i] != letters[i] {
            return false;
        }
        i += 1;
    }
    assert(chars@ =~= letters@);
    true
}

} // verus!
