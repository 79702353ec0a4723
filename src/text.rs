//! Character-level text helpers shared by the timestamp reconstruction and
//! the shortcut parser: whitespace trimming, word-boundary markers, joining.
use vstd::prelude::*;

verus! {

/// The Unicode `White_Space` property, as `char::is_whitespace` documents it.
pub open spec fn is_ws(c: char) -> bool {
    let u = c as u32;
    (0x09 <= u && u <= 0x0D) || u == 0x20 || u == 0x85 || u == 0xA0 || u == 0x1680 || (0x2000
        <= u && u <= 0x200A) || u == 0x2028 || u == 0x2029 || u == 0x202F || u == 0x205F || u
        == 0x3000
}

/// Every character is whitespace (the empty text included).
pub open spec fn blank(s: Seq<char>) -> bool {
    forall|i: int| 0 <= i < s.len() ==> is_ws(#[trigger] s[i])
}

/// The text with its leading whitespace removed.
pub open spec fn trim_start(s: Seq<char>) -> Seq<char>
    decreases s.len(),
{
    if s.len() > 0 && is_ws(s[0]) {
        trim_start(s.drop_first())
    } else {
        s
    }
}

/// The text with its trailing whitespace removed.
pub open spec fn trim_end(s: Seq<char>) -> Seq<char>
    decreases s.len(),
{
    if s.len() > 0 && is_ws(s.last()) {
        trim_end(s.drop_last())
    } else {
        s
    }
}

/// The text with whitespace removed at both ends, as `str::trim` does.
pub open spec fn trim(s: Seq<char>) -> Seq<char> {
    trim_end(trim_start(s))
}

/// The sentencepiece word-boundary marker, U+2581.
pub const WORD_MARKER: char = '\u{2581}';

/// A token that opens a new word: it starts with a space or with the
/// sentencepiece marker.
pub open spec fn starts_with_marker(s: Seq<char>) -> bool {
    s.len() > 0 && (s[0] == WORD_MARKER || s[0] == ' ')
}

/// The token text without its leading boundary marker.
pub open spec fn strip_marker(s: Seq<char>) -> Seq<char> {
    if starts_with_marker(s) {
        s.drop_first()
    } else {
        s
    }
}

/// Sentence-terminal punctuation.
pub open spec fn is_terminal(c: char) -> bool {
    c == '.' || c == '?' || c == '!'
}

/// The text holds a sentence-terminal punctuation mark.
pub open spec fn has_terminal(s: Seq<char>) -> bool {
    exists|i: int| 0 <= i < s.len() && is_terminal(#[trigger] s[i])
}

/// Two texts joined by `sep`, where an empty side contributes nothing.
pub open spec fn join2(p: Seq<char>, q: Seq<char>, sep: char) -> Seq<char> {
    if p.len() == 0 {
        q
    } else if q.len() == 0 {
        p
    } else {
        p + seq![sep] + q
    }
}

/// The non-empty texts of `xs`, in order, separated by single `sep`
/// characters.
pub open spec fn join_nonempty(xs: Seq<Seq<char>>, sep: char) -> Seq<char>
    decreases xs.len(),
{
    if xs.len() == 0 {
        Seq::empty()
    } else {
        join2(join_nonempty(xs.drop_last(), sep), xs.last(), sep)
    }
}

/// All texts of `xs`, in order, separated by single `sep` characters (empty
/// ones included).
pub open spec fn join_all(xs: Seq<Seq<char>>, sep: char) -> Seq<char>
    decreases xs.len(),
{
    if xs.len() == 0 {
        Seq::empty()
    } else if xs.len() == 1 {
        xs[0]
    } else {
        join_all(xs.drop_last(), sep) + seq![sep] + xs.last()
    }
}

/// The texts of `xs` concatenated in order.
pub open spec fn concat_all(xs: Seq<Seq<char>>) -> Seq<char>
    decreases xs.len(),
{
    if xs.len() == 0 {
        Seq::empty()
    } else {
        concat_all(xs.drop_last()) + xs.last()
    }
}

/// Relies on String::push: appends one character.
#[verifier::external_body]
pub(crate) fn push_char(s: &mut String, c: char)
    ensures
        final(s)@ == old(s)@.push(c),
{
    s.push(c)
}

/// The characters of a string, in order.
pub fn chars_of(s: &str) -> (r: Vec<char>)
    ensures
        r@ == s@,
{
    let mut r: Vec<char> = Vec::new();
    for c in it: s.chars()
        invariant
            r@ == it.seq().take(it.index() as int),
    {
        r.push(c);
    }
    r
}

/// Appends the characters of `v` to `s`.
pub fn push_chars(s: &mut String, v: &Vec<char>)
    ensures
        final(s)@ == old(s)@ + v@,
{
    let mut i: usize = 0;
    while i < v.len()
        invariant
            i <= v.len(),
            s@ == old(s)@ + v@.take(i as int),
        decreases v.len() - i,
    {
        push_char(s, v[i]);
        i = i + 1;
        assert(v@.take(i as int) == v@.take((i - 1) as int).push(v@[i - 1]));
    }
    assert(v@.take(v.len() as int) == v@);
}

/// A string holding the characters of `v`.
pub fn string_of(v: &Vec<char>) -> (r: String)
    ensures
        r@ == v@,
{
    let mut s = String::new();
    push_chars(&mut s, v);
    s
}

/// Whether `c` is whitespace.
pub fn is_whitespace(c: char) -> (r: bool)
    ensures
        r == is_ws(c),
{
    let u = c as u32;
    (0x09 <= u && u <= 0x0D) || u == 0x20 || u == 0x85 || u == 0xA0 || u == 0x1680 || (0x2000
        <= u && u <= 0x200A) || u == 0x2028 || u == 0x2029 || u == 0x202F || u == 0x205F || u
        == 0x3000
}

proof fn lemma_trim_start_skip(s: Seq<char>, i: int)
    requires
        0 <= i <= s.len(),
        forall|k: int| 0 <= k < i ==> is_ws(#[trigger] s[k]),
    ensures
        trim_start(s) == trim_start(s.subrange(i, s.len() as int)),
    decreases i,
{
    if i > 0 {
        assert(s.drop_first().subrange(i - 1, s.drop_first().len() as int) == s.subrange(
            i,
            s.len() as int,
        ));
        lemma_trim_start_skip(s.drop_first(), i - 1);
    } else {
        assert(s.subrange(0, s.len() as int) == s);
    }
}

proof fn lemma_trim_end_skip(s: Seq<char>, j: int)
    requires
        0 <= j <= s.len(),
        forall|k: int| j <= k < s.len() ==> is_ws(#[trigger] s[k]),
    ensures
        trim_end(s) == trim_end(s.subrange(0, j)),
    decreases s.len() - j,
{
    if j < s.len() {
        assert(s.drop_last().subrange(0, j) == s.subrange(0, j));
        lemma_trim_end_skip(s.drop_last(), j);
    } else {
        assert(s.subrange(0, s.len() as int) == s);
    }
}

/// Whitespace-only texts are exactly those that trim to nothing.
pub proof fn lemma_blank_iff_trim_empty(s: Seq<char>)
    ensures
        blank(s) <==> trim(s).len() == 0,
        trim_start(s).len() == 0 <==> blank(s),
        trim_end(s).len() == 0 <==> blank(s),
    decreases s.len(),
{
    if s.len() > 0 {
        lemma_blank_iff_trim_empty(s.drop_first());
        lemma_blank_iff_trim_empty(s.drop_last());
        if blank(s) {
            assert(blank(s.drop_first()));
            assert(blank(s.drop_last()));
        } else {
            if is_ws(s[0]) {
                assert(!blank(s.drop_first())) by {
                    let k = choose|k: int| 0 <= k < s.len() && !is_ws(s[k]);
                    assert(s.drop_first()[k - 1] == s[k]);
                }
            }
            if is_ws(s.last()) {
                assert(!blank(s.drop_last())) by {
                    let k = choose|k: int| 0 <= k < s.len() && !is_ws(s[k]);
                    assert(s.drop_last()[k] == s[k]);
                }
            }
        }
        lemma_trim_end_of_start(s);
    }
}

proof fn lemma_trim_end_of_start(s: Seq<char>)
    ensures
        trim_start(s).len() > 0 ==> trim(s).len() > 0,
        trim_start(s).len() > 0 ==> !is_ws(trim_start(s)[0]),
    decreases s.len(),
{
    if s.len() > 0 && is_ws(s[0]) {
        lemma_trim_end_of_start(s.drop_first());
    } else if s.len() > 0 {
        lemma_trim_end_keeps_first(s);
    }
}

proof fn lemma_trim_end_keeps_first(s: Seq<char>)
    requires
        s.len() > 0,
        !is_ws(s[0]),
    ensures
        trim_end(s).len() > 0,
        trim_end(s)[0] == s[0],
    decreases s.len(),
{
    if is_ws(s.last()) {
        assert(s.len() > 1);
        lemma_trim_end_keeps_first(s.drop_last());
    }
}

/// The text of `v` without surrounding whitespace.
pub fn trim_chars(v: &Vec<char>) -> (r: Vec<char>)
    ensures
        r@ == trim(v@),
{
    let n = v.len();
    let mut i: usize = 0;
    while i < n && is_whitespace(v[i])
        invariant
            i <= n,
            n == v.len(),
            forall|k: int| 0 <= k < i ==> is_ws(#[trigger] v@[k]),
        decreases n - i,
    {
        i = i + 1;
    }
    proof {
        lemma_trim_start_skip(v@, i as int);
        let t = v@.subrange(i as int, n as int);
        if i < n {
            assert(!is_ws(t[0]));
        }
        assert(trim_start(v@) == t);
    }
    let mut j: usize = n;
    while j > i && is_whitespace(v[j - 1])
        invariant
            i <= j <= n,
            n == v.len(),
            forall|k: int| j <= k < n ==> is_ws(#[trigger] v@[k]),
        decreases j,
    {
        j = j - 1;
    }
    let mut r: Vec<char> = Vec::new();
    let mut k: usize = i;
    while k < j
        invariant
            i <= k <= j,
            j <= n,
            n == v.len(),
            r@ == v@.subrange(i as int, k as int),
        decreases j - k,
    {
        r.push(v[k]);
        k = k + 1;
        assert(r@ == v@.subrange(i as int, k as int));
    }
    proof {
        let t = v@.subrange(i as int, n as int);
        assert forall|k: int| j - i <= k < t.len() implies is_ws(#[trigger] t[k]) by {
            assert(t[k] == v@[i + k]);
        }
        lemma_trim_end_skip(t, j - i);
        assert(t.subrange(0, j - i) == r@);
        if j > i {
            assert(!is_ws(r@.last()));
        }
    }
    r
}

/// Whether every character of `v` is whitespace.
pub fn is_blank_chars(v: &Vec<char>) -> (r: bool)
    ensures
        r == blank(v@),
{
    let mut i: usize = 0;
    while i < v.len()
        invariant
            i <= v.len(),
            forall|k: int| 0 <= k < i ==> is_ws(#[trigger] v@[k]),
        decreases v.len() - i,
    {
        if !is_whitespace(v[i]) {
            return false;
        }
        i = i + 1;
    }
    true
}

/// Whether `v` holds `.`, `?` or `!`.
pub fn has_terminal_chars(v: &Vec<char>) -> (r: bool)
    ensures
        r == has_terminal(v@),
{
    let mut i: usize = 0;
    while i < v.len()
        invariant
            i <= v.len(),
            forall|k: int| 0 <= k < i ==> !is_terminal(#[trigger] v@[k]),
        decreases v.len() - i,
    {
        let c = v[i];
        if c == '.' || c == '?' || c == '!' {
            assert(is_terminal(v@[i as int]));
            return true;
        }
        i = i + 1;
    }
    false
}

/// The characters of `v` after its leading boundary marker, if any.
pub fn strip_marker_chars(v: &Vec<char>) -> (r: Vec<char>)
    ensures
        r@ == strip_marker(v@),
{
    let start: usize = if v.len() > 0 && (v[0] == WORD_MARKER || v[0] == ' ') {
        1
    } else {
        0
    };
    let mut r: Vec<char> = Vec::new();
    let mut k: usize = start;
    while k < v.len()
        invariant
            start <= k <= v.len(),
            r@ == v@.subrange(start as int, k as int),
        decreases v.len() - k,
    {
        r.push(v[k]);
        k = k + 1;
        assert(r@ == v@.subrange(start as int, k as int));
    }
    assert(v@.subrange(0, v.len() as int) == v@);
    r
}

/// A text that trims to something non-empty is not blank.
pub proof fn lemma_trim_nonempty_not_blank(s: Seq<char>)
    requires
        trim(s).len() > 0,
    ensures
        !blank(trim(s)),
{
    lemma_blank_iff_trim_empty(s);
    lemma_trim_end_of_start(s);
    lemma_trim_end_keeps_first(trim_start(s));
    assert(!is_ws(trim(s)[0]));
}

/// Joining is associative.
pub proof fn lemma_join2_assoc(x: Seq<char>, y: Seq<char>, z: Seq<char>, sep: char)
    ensures
        join2(join2(x, y, sep), z, sep) == join2(x, join2(y, z, sep), sep),
{
    if x.len() > 0 && y.len() > 0 && z.len() > 0 {
        assert((x + seq![sep] + y) + seq![sep] + z =~= x + seq![sep] + (y + seq![sep] + z));
    }
}

/// Joining a concatenation joins the joins of its two parts.
pub proof fn lemma_join_nonempty_append(a: Seq<Seq<char>>, b: Seq<Seq<char>>, sep: char)
    ensures
        join_nonempty(a + b, sep) == join2(join_nonempty(a, sep), join_nonempty(b, sep), sep),
    decreases b.len(),
{
    if b.len() == 0 {
        assert(a + b =~= a);
    } else {
        assert((a + b).drop_last() =~= a + b.drop_last());
        assert((a + b).last() == b.last());
        lemma_join_nonempty_append(a, b.drop_last(), sep);
        lemma_join2_assoc(join_nonempty(a, sep), join_nonempty(b.drop_last(), sep), b.last(), sep);
    }
}

/// A join ending in a non-blank text is not blank.
pub proof fn lemma_join2_not_blank(p: Seq<char>, q: Seq<char>, sep: char)
    requires
        !blank(q),
    ensures
        !blank(join2(p, q, sep)),
{
    if p.len() > 0 && q.len() > 0 {
        let j = p + seq![sep] + q;
        let k = choose|k: int| 0 <= k < q.len() && !is_ws(q[k]);
        assert(j[p.len() + 1 + k] == q[k]);
    }
}

/// The decimal digit for `d` (taken modulo ten).
pub open spec fn digit_char(d: nat) -> char {
    let d = d % 10;
    if d == 0 {
        '0'
    } else if d == 1 {
        '1'
    } else if d == 2 {
        '2'
    } else if d == 3 {
        '3'
    } else if d == 4 {
        '4'
    } else if d == 5 {
        '5'
    } else if d == 6 {
        '6'
    } else if d == 7 {
        '7'
    } else if d == 8 {
        '8'
    } else {
        '9'
    }
}

/// The decimal notation of `n`, without leading zeros.
pub open spec fn decimal(n: nat) -> Seq<char>
    decreases n,
{
    if n < 10 {
        seq![digit_char(n)]
    } else {
        decimal(n / 10).push(digit_char(n % 10))
    }
}

fn digit(d: u64) -> (c: char)
    requires
        d < 10,
    ensures
        c == digit_char(d as nat),
{
    if d == 0 {
        '0'
    } else if d == 1 {
        '1'
    } else if d == 2 {
        '2'
    } else if d == 3 {
        '3'
    } else if d == 4 {
        '4'
    } else if d == 5 {
        '5'
    } else if d == 6 {
        '6'
    } else if d == 7 {
        '7'
    } else if d == 8 {
        '8'
    } else {
        '9'
    }
}

/// The decimal digits of `n`.
pub fn decimal_chars(n: u64) -> (r: Vec<char>)
    ensures
        r@ == decimal(n as nat),
    decreases n,
{
    if n < 10 {
        let mut r: Vec<char> = Vec::new();
        r.push(digit(n));
        assert(r@ =~= seq![digit_char(n as nat)]);
        r
    } else {
        let mut r = decimal_chars(n / 10);
        r.push(digit(n % 10));
        r
    }
}

/// `v` holds exactly the characters of `lit`.
pub fn eq_lit(v: &Vec<char>, lit: &str) -> (r: bool)
    ensures
        r == (v@ == lit@),
{
    let n = lit.unicode_len();
    if v.len() != n {
        return false;
    }
    let mut i: usize = 0;
    while i < n
        invariant
            i <= n,
            n == v.len(),
            n == lit@.len(),
            forall|k: int| 0 <= k < i ==> v@[k] == lit@[k],
        decreases n - i,
    {
        if v[i] != lit.get_char(i) {
            return false;
        }
        i = i + 1;
    }
    assert(v@ =~= lit@);
    true
}

} // verus!
