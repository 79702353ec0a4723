//! Reconstruction of a recognizer's raw per-token output into a hierarchy of
//! tokens, words and segments, flattened at a chosen granularity.
//!
//! Times are whole milliseconds from the start of the audio.
use vstd::prelude::*;
use crate::text::{
    blank, chars_of, concat_all, has_terminal, has_terminal_chars, is_blank_chars, join_nonempty,
    starts_with_marker, strip_marker, strip_marker_chars, string_of, trim, trim_chars, WORD_MARKER,
};

verus! {

/// Duration given to the last token, which has no successor to end it.
pub const LAST_TOKEN_MS: u64 = 50;

/// Granularity level of the returned timing entries.
#[derive(Clone, Copy, Debug, PartialEq, Eq, Structural)]
pub enum TimestampGranularity {
    /// One entry per raw token, blank ones included.
    Token,
    /// One entry per word.
    Word,
    /// One entry per sentence-like segment.
    Segment,
}

impl Default for TimestampGranularity {
    fn default() -> (r: Self)
        ensures
            r == TimestampGranularity::Token,
    {
        TimestampGranularity::Token
    }
}

/// What the recognizer hands back for one pass: token texts, the start time
/// of each token, and the whole text.
pub struct TimestampedResult {
    pub tokens: Vec<String>,
    pub timestamps: Vec<u32>,
    pub text: String,
}

pub struct TimestampedResultView {
    pub tokens: Seq<Seq<char>>,
    pub timestamps: Seq<u32>,
    pub text: Seq<char>,
}

impl View for TimestampedResult {
    type V = TimestampedResultView;

    open spec fn view(&self) -> TimestampedResultView {
        TimestampedResultView {
            tokens: self.tokens@.map_values(|s: String| s@),
            timestamps: self.timestamps@,
            text: self.text@,
        }
    }
}

pub struct Token {
    pub text: String,
    pub token_id: Option<usize>,
    pub t_start: u64,
    pub t_end: u64,
    pub is_blank: bool,
}

pub struct TokenView {
    pub text: Seq<char>,
    pub token_id: Option<usize>,
    pub t_start: u64,
    pub t_end: u64,
    pub is_blank: bool,
}

impl View for Token {
    type V = TokenView;

    open spec fn view(&self) -> TokenView {
        TokenView {
            text: self.text@,
            token_id: self.token_id,
            t_start: self.t_start,
            t_end: self.t_end,
            is_blank: self.is_blank,
        }
    }
}

pub struct Word {
    pub text: String,
    pub t_start: u64,
    pub t_end: u64,
    pub tokens: Vec<Token>,
}

pub struct WordView {
    pub text: Seq<char>,
    pub t_start: u64,
    pub t_end: u64,
    pub tokens: Seq<TokenView>,
}

impl View for Word {
    type V = WordView;

    open spec fn view(&self) -> WordView {
        WordView {
            text: self.text@,
            t_start: self.t_start,
            t_end: self.t_end,
            tokens: token_views(self.tokens@),
        }
    }
}

pub struct Segment {
    pub text: String,
    pub t_start: u64,
    pub t_end: u64,
    pub words: Vec<Word>,
}

pub struct SegmentView {
    pub text: Seq<char>,
    pub t_start: u64,
    pub t_end: u64,
    pub words: Seq<WordView>,
}

impl View for Segment {
    type V = SegmentView;

    open spec fn view(&self) -> SegmentView {
        SegmentView {
            text: self.text@,
            t_start: self.t_start,
            t_end: self.t_end,
            words: word_views(self.words@),
        }
    }
}

pub struct Utterance {
    pub text: String,
    pub segments: Vec<Segment>,
}

pub struct UtteranceView {
    pub text: Seq<char>,
    pub segments: Seq<SegmentView>,
}

impl View for Utterance {
    type V = UtteranceView;

    open spec fn view(&self) -> UtteranceView {
        UtteranceView { text: self.text@, segments: segment_views(self.segments@) }
    }
}

/// A transcribed stretch of audio with its start and end time.
pub struct TranscriptionSegment {
    pub start: u64,
    pub end: u64,
    pub text: String,
}

pub struct EntryView {
    pub start: u64,
    pub end: u64,
    pub text: Seq<char>,
}

impl View for TranscriptionSegment {
    type V = EntryView;

    open spec fn view(&self) -> EntryView {
        EntryView { start: self.start, end: self.end, text: self.text@ }
    }
}

pub open spec fn token_views(v: Seq<Token>) -> Seq<TokenView> {
    v.map_values(|t: Token| t@)
}

pub open spec fn word_views(v: Seq<Word>) -> Seq<WordView> {
    v.map_values(|w: Word| w@)
}

pub open spec fn segment_views(v: Seq<Segment>) -> Seq<SegmentView> {
    v.map_values(|s: Segment| s@)
}

pub open spec fn entry_views(v: Seq<TranscriptionSegment>) -> Seq<EntryView> {
    v.map_values(|e: TranscriptionSegment| e@)
}

/// Number of tokens that have a start time.
pub open spec fn paired_len(r: TimestampedResultView) -> int {
    if r.tokens.len() <= r.timestamps.len() {
        r.tokens.len() as int
    } else {
        r.timestamps.len() as int
    }
}

/// End of the `i`-th token: the next start time, or a short fixed duration
/// after its own start when no next start exists.
pub open spec fn end_time(ts: Seq<u32>, i: int) -> u64 {
    if i + 1 < ts.len() {
        ts[i + 1] as u64
    } else {
        (ts[i] + LAST_TOKEN_MS) as u64
    }
}

pub open spec fn token_at(r: TimestampedResultView, i: int) -> TokenView {
    TokenView {
        text: r.tokens[i],
        token_id: Some(i as usize),
        t_start: r.timestamps[i] as u64,
        t_end: end_time(r.timestamps, i),
        is_blank: blank(r.tokens[i]),
    }
}

/// The tokens of a recognizer result, each with its synthesized end time.
pub open spec fn tokens_of(r: TimestampedResultView) -> Seq<TokenView> {
    Seq::new(paired_len(r) as nat, |i: int| token_at(r, i))
}

/// The raw token entries, one per token that has a start time.
pub open spec fn raw_entries(r: TimestampedResultView) -> Seq<EntryView> {
    Seq::new(
        paired_len(r) as nat,
        |i: int| EntryView { start: r.timestamps[i] as u64, end: end_time(r.timestamps, i), text: r.tokens[i] },
    )
}

fn end_time_at(ts: &Vec<u32>, i: usize) -> (r: u64)
    requires
        i < ts.len(),
    ensures
        r == end_time(ts@, i as int),
{
    if i + 1 < ts.len() {
        ts[i + 1] as u64
    } else {
        ts[i] as u64 + LAST_TOKEN_MS
    }
}

fn paired_len_of(r: &TimestampedResult) -> (n: usize)
    ensures
        n == paired_len(r@),
{
    if r.tokens.len() <= r.timestamps.len() {
        r.tokens.len()
    } else {
        r.timestamps.len()
    }
}

/// The raw tokens exactly as the recognizer gave them, blank ones included.
fn convert_to_raw_token_segments(r: &TimestampedResult) -> (out: Vec<TranscriptionSegment>)
    ensures
        entry_views(out@) == raw_entries(r@),
{
    let n = paired_len_of(r);
    let mut out: Vec<TranscriptionSegment> = Vec::new();
    let mut i: usize = 0;
    while i < n
        invariant
            i <= n,
            n == paired_len(r@),
            n <= r.tokens.len(),
            n <= r.timestamps.len(),
            entry_views(out@) == raw_entries(r@).take(i as int),
        decreases n - i,
    {
        let e = TranscriptionSegment {
            start: r.timestamps[i] as u64,
            end: end_time_at(&r.timestamps, i),
            text: r.tokens[i].clone(),
        };
        let ghost before = out@;
        out.push(e);
        proof {
            assert(entry_views(out@) =~= entry_views(before).push(e@));
            assert(raw_entries(r@).take(i + 1) =~= raw_entries(r@).take(i as int).push(e@));
        }
        i = i + 1;
    }
    assert(raw_entries(r@).take(n as int) =~= raw_entries(r@));
    out
}

fn create_tokens_from_timestamped_result(r: &TimestampedResult) -> (out: Vec<Token>)
    ensures
        token_views(out@) == tokens_of(r@),
{
    let n = paired_len_of(r);
    let mut out: Vec<Token> = Vec::new();
    let mut i: usize = 0;
    while i < n
        invariant
            i <= n,
            n == paired_len(r@),
            n <= r.tokens.len(),
            n <= r.timestamps.len(),
            token_views(out@) == tokens_of(r@).take(i as int),
        decreases n - i,
    {
        let chars = chars_of(r.tokens[i].as_str());
        let t = Token {
            text: r.tokens[i].clone(),
            token_id: Some(i),
            t_start: r.timestamps[i] as u64,
            t_end: end_time_at(&r.timestamps, i),
            is_blank: is_blank_chars(&chars),
        };
        let ghost before = out@;
        out.push(t);
        proof {
            assert(t@ == token_at(r@, i as int));
            assert(token_views(out@) =~= token_views(before).push(t@));
            assert(tokens_of(r@).take(i + 1) =~= tokens_of(r@).take(i as int).push(t@));
        }
        i = i + 1;
    }
    assert(tokens_of(r@).take(n as int) =~= tokens_of(r@));
    out
}

/// Groups the non-blank tokens into words: a token opens a new word when it
/// starts with a boundary marker or when no word is open yet; otherwise it
/// extends the open word.
pub open spec fn word_groups(toks: Seq<TokenView>) -> Seq<Seq<TokenView>>
    decreases toks.len(),
{
    if toks.len() == 0 {
        Seq::empty()
    } else {
        let prev = word_groups(toks.drop_last());
        let t = toks.last();
        if t.is_blank {
            prev
        } else if starts_with_marker(t.text) || prev.len() == 0 {
            prev.push(seq![t])
        } else {
            prev.update(prev.len() - 1, prev.last().push(t))
        }
    }
}

/// All groups but the open (last) one.
pub open spec fn closed_groups<A>(g: Seq<Seq<A>>) -> Seq<Seq<A>> {
    if g.len() == 0 {
        g
    } else {
        g.drop_last()
    }
}

pub open spec fn stripped_texts(g: Seq<TokenView>) -> Seq<Seq<char>> {
    g.map_values(|t: TokenView| strip_marker(t.text))
}

/// The word made of a non-empty group of tokens: it spans from the first
/// token's start to the last token's end, and its text is the tokens' texts
/// without boundary markers, concatenated and trimmed.
pub open spec fn word_of(g: Seq<TokenView>) -> WordView {
    WordView {
        text: trim(concat_all(stripped_texts(g))),
        t_start: g[0].t_start,
        t_end: g.last().t_end,
        tokens: g,
    }
}

/// The words of the groups, without those whose text is empty.
pub open spec fn kept_words(gs: Seq<Seq<TokenView>>) -> Seq<WordView>
    decreases gs.len(),
{
    if gs.len() == 0 {
        Seq::empty()
    } else {
        let p = kept_words(gs.drop_last());
        let w = word_of(gs.last());
        if w.text.len() > 0 {
            p.push(w)
        } else {
            p
        }
    }
}

/// The words of a token sequence.
pub open spec fn words_of(toks: Seq<TokenView>) -> Seq<WordView> {
    kept_words(word_groups(toks))
}

fn copy_token(t: &Token) -> (r: Token)
    ensures
        r@ == t@,
{
    Token {
        text: t.text.clone(),
        token_id: t.token_id,
        t_start: t.t_start,
        t_end: t.t_end,
        is_blank: t.is_blank,
    }
}

fn copy_tokens(v: &Vec<Token>) -> (r: Vec<Token>)
    ensures
        token_views(r@) == token_views(v@),
{
    let mut r: Vec<Token> = Vec::new();
    let mut i: usize = 0;
    while i < v.len()
        invariant
            i <= v.len(),
            token_views(r@) == token_views(v@).take(i as int),
        decreases v.len() - i,
    {
        let t = copy_token(&v[i]);
        let ghost before = r@;
        r.push(t);
        proof {
            assert(token_views(r@) =~= token_views(before).push(t@));
            assert(token_views(v@).take(i + 1) =~= token_views(v@).take(i as int).push(t@));
        }
        i = i + 1;
    }
    assert(token_views(v@).take(v.len() as int) =~= token_views(v@));
    r
}

fn create_word_from_tokens(tokens: &Vec<Token>) -> (w: Word)
    requires
        tokens.len() > 0,
    ensures
        w@ == word_of(token_views(tokens@)),
{
    let ghost tv = token_views(tokens@);
    let mut acc: Vec<char> = Vec::new();
    let mut i: usize = 0;
    while i < tokens.len()
        invariant
            i <= tokens.len(),
            tv == token_views(tokens@),
            acc@ == concat_all(stripped_texts(tv.take(i as int))),
        decreases tokens.len() - i,
    {
        let chars = chars_of(tokens[i].text.as_str());
        let piece = strip_marker_chars(&chars);
        let mut k: usize = 0;
        let ghost acc0 = acc@;
        while k < piece.len()
            invariant
                k <= piece.len(),
                acc@ == acc0 + piece@.take(k as int),
            decreases piece.len() - k,
        {
            acc.push(piece[k]);
            k = k + 1;
            assert(piece@.take(k as int) =~= piece@.take(k - 1).push(piece@[k - 1]));
        }
        proof {
            assert(piece@.take(k as int) =~= piece@);
            let st = stripped_texts(tv.take(i + 1));
            assert(st.drop_last() =~= stripped_texts(tv.take(i as int)));
        }
        i = i + 1;
    }
    assert(tv.take(tokens.len() as int) =~= tv);
    let trimmed = trim_chars(&acc);
    Word {
        text: string_of(&trimmed),
        t_start: tokens[0].t_start,
        t_end: tokens[tokens.len() - 1].t_end,
        tokens: copy_tokens(tokens),
    }
}

fn starts_with_marker_chars(v: &Vec<char>) -> (r: bool)
    ensures
        r == starts_with_marker(v@),
{
    v.len() > 0 && (v[0] == WORD_MARKER || v[0] == ' ')
}

/// Closes the open word: pushes it unless its text is empty.
fn close_word(words: &mut Vec<Word>, current: &Vec<Token>)
    requires
        current.len() > 0,
    ensures
        word_views(final(words)@) == if word_of(token_views(current@)).text.len() > 0 {
            word_views(old(words)@).push(word_of(token_views(current@)))
        } else {
            word_views(old(words)@)
        },
{
    let w = create_word_from_tokens(current);
    let chars = chars_of(w.text.as_str());
    if chars.len() > 0 {
        let ghost before = words@;
        words.push(w);
        assert(word_views(words@) =~= word_views(before).push(w@));
    }
}

fn group_tokens_into_words_hierarchical(tokens: &Vec<Token>) -> (words: Vec<Word>)
    ensures
        word_views(words@) == words_of(token_views(tokens@)),
{
    let ghost tv = token_views(tokens@);
    let mut words: Vec<Word> = Vec::new();
    let mut current: Vec<Token> = Vec::new();
    let mut i: usize = 0;
    while i < tokens.len()
        invariant
            i <= tokens.len(),
            tv == token_views(tokens@),
            word_groups(tv.take(i as int)).len() == 0 ==> current.len() == 0,
            word_groups(tv.take(i as int)).len() > 0 ==> current.len() > 0 && token_views(
                current@,
            ) == word_groups(tv.take(i as int)).last(),
            word_views(words@) == kept_words(closed_groups(word_groups(tv.take(i as int)))),
        decreases tokens.len() - i,
    {
        let ghost g = word_groups(tv.take(i as int));
        proof {
            assert(tv.take(i + 1).drop_last() =~= tv.take(i as int));
            assert(tv.take(i + 1).last() == tv[i as int]);
        }
        if !tokens[i].is_blank {
            let chars = chars_of(tokens[i].text.as_str());
            let t = copy_token(&tokens[i]);
            if starts_with_marker_chars(&chars) || current.len() == 0 {
                if current.len() > 0 {
                    close_word(&mut words, &current);
                    proof {
                        assert(g =~= g.drop_last().push(g.last()));
                    }
                    current = Vec::new();
                }
                let ghost before = current@;
                current.push(t);
                proof {
                    let g2 = word_groups(tv.take(i + 1));
                    assert(g2 == g.push(seq![tv[i as int]]));
                    assert(token_views(current@) =~= seq![tv[i as int]]);
                    assert(g2.drop_last() =~= g);
                }
            } else {
                let ghost before = current@;
                current.push(t);
                proof {
                    let g2 = word_groups(tv.take(i + 1));
                    assert(token_views(current@) =~= token_views(before).push(tv[i as int]));
                    assert(g2.drop_last() =~= g.drop_last());
                }
            }
        }
        i = i + 1;
    }
    assert(tv.take(tokens.len() as int) =~= tv);
    if current.len() > 0 {
        close_word(&mut words, &current);
        proof {
            let g = word_groups(tv);
            assert(g =~= g.drop_last().push(g.last()));
        }
    }
    words
}

/// Left-to-right grouping of words into segments: the closed segments so far
/// and the words of the open one. A word holding `.`, `?` or `!` closes the
/// open segment.
pub open spec fn seg_state(ws: Seq<WordView>) -> (Seq<Seq<WordView>>, Seq<WordView>)
    decreases ws.len(),
{
    if ws.len() == 0 {
        (Seq::empty(), Seq::empty())
    } else {
        let st = seg_state(ws.drop_last());
        let w = ws.last();
        if has_terminal(w.text) {
            (st.0.push(st.1.push(w)), Seq::empty())
        } else {
            (st.0, st.1.push(w))
        }
    }
}

/// The word groups of the segments; the last group closes at the end of the
/// input whatever its punctuation.
pub open spec fn segment_groups(ws: Seq<WordView>) -> Seq<Seq<WordView>> {
    let st = seg_state(ws);
    if st.1.len() > 0 {
        st.0.push(st.1)
    } else {
        st.0
    }
}

pub open spec fn word_texts(ws: Seq<WordView>) -> Seq<Seq<char>> {
    ws.map_values(|w: WordView| w.text)
}

/// The segment made of a non-empty group of words: it spans from the first
/// word's start to the last word's end, and its text is the non-empty word
/// texts joined by single spaces.
pub open spec fn segment_of(g: Seq<WordView>) -> SegmentView {
    SegmentView {
        text: join_nonempty(word_texts(g), ' '),
        t_start: g[0].t_start,
        t_end: g.last().t_end,
        words: g,
    }
}

/// The segments of the groups, without those whose text is empty.
pub open spec fn kept_segments(gs: Seq<Seq<WordView>>) -> Seq<SegmentView>
    decreases gs.len(),
{
    if gs.len() == 0 {
        Seq::empty()
    } else {
        let p = kept_segments(gs.drop_last());
        let s = segment_of(gs.last());
        if s.text.len() > 0 {
            p.push(s)
        } else {
            p
        }
    }
}

/// The segments of a word sequence. When grouping keeps no segment, all the
/// words together form one.
pub open spec fn segments_of(ws: Seq<WordView>) -> Seq<SegmentView> {
    let s = kept_segments(segment_groups(ws));
    if s.len() == 0 && ws.len() > 0 && segment_of(ws).text.len() > 0 {
        seq![segment_of(ws)]
    } else {
        s
    }
}

fn string_is_empty(s: &String) -> (r: bool)
    ensures
        r == (s@.len() == 0),
{
    let chars = chars_of(s.as_str());
    chars.len() == 0
}

fn copy_word(w: &Word) -> (r: Word)
    ensures
        r@ == w@,
{
    Word { text: w.text.clone(), t_start: w.t_start, t_end: w.t_end, tokens: copy_tokens(&w.tokens) }
}

fn copy_words(v: &Vec<Word>) -> (r: Vec<Word>)
    ensures
        word_views(r@) == word_views(v@),
{
    let mut r: Vec<Word> = Vec::new();
    let mut i: usize = 0;
    while i < v.len()
        invariant
            i <= v.len(),
            word_views(r@) == word_views(v@).take(i as int),
        decreases v.len() - i,
    {
        let w = copy_word(&v[i]);
        let ghost before = r@;
        r.push(w);
        proof {
            assert(word_views(r@) =~= word_views(before).push(w@));
            assert(word_views(v@).take(i + 1) =~= word_views(v@).take(i as int).push(w@));
        }
        i = i + 1;
    }
    assert(word_views(v@).take(v.len() as int) =~= word_views(v@));
    r
}

fn create_segment_from_words(words: &Vec<Word>) -> (s: Segment)
    requires
        words.len() > 0,
    ensures
        s@ == segment_of(word_views(words@)),
{
    let ghost wv = word_views(words@);
    let mut acc: Vec<char> = Vec::new();
    let mut i: usize = 0;
    while i < words.len()
        invariant
            i <= words.len(),
            wv == word_views(words@),
            acc@ == join_nonempty(word_texts(wv.take(i as int)), ' '),
        decreases words.len() - i,
    {
        let chars = chars_of(words[i].text.as_str());
        let ghost acc0 = acc@;
        if chars.len() > 0 {
            if acc.len() > 0 {
                acc.push(' ');
            }
            let mut k: usize = 0;
            let ghost acc1 = acc@;
            while k < chars.len()
                invariant
                    k <= chars.len(),
                    acc@ == acc1 + chars@.take(k as int),
                decreases chars.len() - k,
            {
                acc.push(chars[k]);
                k = k + 1;
                assert(chars@.take(k as int) =~= chars@.take(k - 1).push(chars@[k - 1]));
            }
            assert(chars@.take(k as int) =~= chars@);
        }
        proof {
            let wt = word_texts(wv.take(i + 1));
            assert(wt.drop_last() =~= word_texts(wv.take(i as int)));
            assert(wt.last() == chars@);
            if chars.len() > 0 && acc0.len() > 0 {
                assert(acc@ =~= acc0 + seq![' '] + chars@);
            }
        }
        i = i + 1;
    }
    assert(wv.take(words.len() as int) =~= wv);
    Segment {
        text: string_of(&acc),
        t_start: words[0].t_start,
        t_end: words[words.len() - 1].t_end,
        words: copy_words(words),
    }
}

/// Closes the open segment: pushes it unless its text is empty.
fn close_segment(segments: &mut Vec<Segment>, current: &Vec<Word>)
    requires
        current.len() > 0,
    ensures
        segment_views(final(segments)@) == if segment_of(word_views(current@)).text.len() > 0 {
            segment_views(old(segments)@).push(segment_of(word_views(current@)))
        } else {
            segment_views(old(segments)@)
        },
{
    let s = create_segment_from_words(current);
    if !string_is_empty(&s.text) {
        let ghost before = segments@;
        segments.push(s);
        assert(segment_views(segments@) =~= segment_views(before).push(s@));
    }
}

fn group_words_into_segments(words: &Vec<Word>) -> (segments: Vec<Segment>)
    ensures
        segment_views(segments@) == segments_of(word_views(words@)),
{
    let ghost wv = word_views(words@);
    let mut segments: Vec<Segment> = Vec::new();
    let mut current: Vec<Word> = Vec::new();
    let mut i: usize = 0;
    while i < words.len()
        invariant
            i <= words.len(),
            wv == word_views(words@),
            word_views(current@) == seg_state(wv.take(i as int)).1,
            segment_views(segments@) == kept_segments(seg_state(wv.take(i as int)).0),
        decreases words.len() - i,
    {
        let ghost st = seg_state(wv.take(i as int));
        proof {
            assert(wv.take(i + 1).drop_last() =~= wv.take(i as int));
            assert(wv.take(i + 1).last() == wv[i as int]);
        }
        let w = copy_word(&words[i]);
        let chars = chars_of(words[i].text.as_str());
        let ghost before = current@;
        current.push(w);
        assert(word_views(current@) =~= word_views(before).push(wv[i as int]));
        if has_terminal_chars(&chars) {
            close_segment(&mut segments, &current);
            current = Vec::new();
            proof {
                let st2 = seg_state(wv.take(i + 1));
                assert(st2.0.drop_last() =~= st.0);
                assert(word_views(current@) =~= st2.1);
            }
        }
        i = i + 1;
    }
    assert(wv.take(words.len() as int) =~= wv);
    if current.len() > 0 {
        close_segment(&mut segments, &current);
        proof {
            let g = segment_groups(wv);
            assert(g.drop_last() =~= seg_state(wv).0);
        }
    }
    if segments.len() == 0 && words.len() > 0 {
        close_segment(&mut segments, words);
        assert(segment_views(segments@) =~= seq![segment_of(wv)] || segments@.len() == 0);
    }
    segments
}

/// The hierarchy of one recognition pass. Without tokens or start times, a
/// non-blank whole text becomes one segment of zero duration.
pub open spec fn utterance_of(r: TimestampedResultView) -> UtteranceView {
    if r.tokens.len() == 0 || r.timestamps.len() == 0 {
        UtteranceView {
            text: r.text,
            segments: if blank(r.text) {
                Seq::empty()
            } else {
                seq![SegmentView { text: r.text, t_start: 0, t_end: 0, words: Seq::empty() }]
            },
        }
    } else {
        UtteranceView { text: r.text, segments: segments_of(words_of(tokens_of(r))) }
    }
}

/// The entries of the non-blank words, in order.
pub open spec fn word_entries_in(ws: Seq<WordView>) -> Seq<EntryView>
    decreases ws.len(),
{
    if ws.len() == 0 {
        Seq::empty()
    } else {
        let p = word_entries_in(ws.drop_last());
        let w = ws.last();
        if blank(w.text) {
            p
        } else {
            p.push(EntryView { start: w.t_start, end: w.t_end, text: w.text })
        }
    }
}

/// The entries of the non-blank words of all segments, in order.
pub open spec fn word_entries(segs: Seq<SegmentView>) -> Seq<EntryView>
    decreases segs.len(),
{
    if segs.len() == 0 {
        Seq::empty()
    } else {
        word_entries(segs.drop_last()) + word_entries_in(segs.last().words)
    }
}

/// The entries of the non-blank segments, in order.
pub open spec fn segment_entries(segs: Seq<SegmentView>) -> Seq<EntryView>
    decreases segs.len(),
{
    if segs.len() == 0 {
        Seq::empty()
    } else {
        let p = segment_entries(segs.drop_last());
        let s = segs.last();
        if blank(s.text) {
            p
        } else {
            p.push(EntryView { start: s.t_start, end: s.t_end, text: s.text })
        }
    }
}

/// The timing entries of a recognition pass at the given granularity.
pub open spec fn converted(r: TimestampedResultView, g: TimestampGranularity) -> Seq<EntryView> {
    match g {
        TimestampGranularity::Token => raw_entries(r),
        TimestampGranularity::Word => word_entries(utterance_of(r).segments),
        TimestampGranularity::Segment => segment_entries(utterance_of(r).segments),
    }
}

/// Builds the token, word and segment hierarchy of a recognition pass.
pub fn build_utterance_from_tokens(r: &TimestampedResult) -> (u: Utterance)
    ensures
        u@ == utterance_of(r@),
{
    if r.tokens.len() == 0 || r.timestamps.len() == 0 {
        let chars = chars_of(r.text.as_str());
        let mut segments: Vec<Segment> = Vec::new();
        if !is_blank_chars(&chars) {
            let s = Segment { text: r.text.clone(), t_start: 0, t_end: 0, words: Vec::new() };
            segments.push(s);
            assert(word_views(s.words@) =~= Seq::empty());
            assert(segment_views(segments@) =~= seq![s@]);
        } else {
            assert(segment_views(segments@) =~= Seq::empty());
        }
        return Utterance { text: r.text.clone(), segments };
    }
    let tokens = create_tokens_from_timestamped_result(r);
    let words = group_tokens_into_words_hierarchical(&tokens);
    let segments = group_words_into_segments(&words);
    Utterance { text: r.text.clone(), segments }
}

fn push_word_entries(out: &mut Vec<TranscriptionSegment>, words: &Vec<Word>)
    ensures
        entry_views(final(out)@) == entry_views(old(out)@) + word_entries_in(word_views(words@)),
{
    let ghost wv = word_views(words@);
    let ghost out0 = entry_views(out@);
    let mut i: usize = 0;
    while i < words.len()
        invariant
            i <= words.len(),
            wv == word_views(words@),
            entry_views(out@) == out0 + word_entries_in(wv.take(i as int)),
        decreases words.len() - i,
    {
        proof {
            assert(wv.take(i + 1).drop_last() =~= wv.take(i as int));
        }
        let chars = chars_of(words[i].text.as_str());
        if !is_blank_chars(&chars) {
            let e = TranscriptionSegment {
                start: words[i].t_start,
                end: words[i].t_end,
                text: words[i].text.clone(),
            };
            let ghost before = out@;
            out.push(e);
            assert(entry_views(out@) =~= entry_views(before).push(e@));
            assert(entry_views(out@) =~= out0 + word_entries_in(wv.take(i + 1)));
        }
        i = i + 1;
    }
    assert(wv.take(words.len() as int) =~= wv);
}

fn extract_word_segments(u: &Utterance) -> (out: Vec<TranscriptionSegment>)
    ensures
        entry_views(out@) == word_entries(u@.segments),
{
    let ghost sv = segment_views(u.segments@);
    let mut out: Vec<TranscriptionSegment> = Vec::new();
    let mut i: usize = 0;
    while i < u.segments.len()
        invariant
            i <= u.segments.len(),
            sv == segment_views(u.segments@),
            entry_views(out@) == word_entries(sv.take(i as int)),
        decreases u.segments.len() - i,
    {
        proof {
            assert(sv.take(i + 1).drop_last() =~= sv.take(i as int));
        }
        push_word_entries(&mut out, &u.segments[i].words);
        i = i + 1;
    }
    assert(sv.take(u.segments.len() as int) =~= sv);
    out
}

fn extract_segment_segments(u: &Utterance) -> (out: Vec<TranscriptionSegment>)
    ensures
        entry_views(out@) == segment_entries(u@.segments),
{
    let ghost sv = segment_views(u.segments@);
    let mut out: Vec<TranscriptionSegment> = Vec::new();
    let mut i: usize = 0;
    while i < u.segments.len()
        invariant
            i <= u.segments.len(),
            sv == segment_views(u.segments@),
            entry_views(out@) == segment_entries(sv.take(i as int)),
        decreases u.segments.len() - i,
    {
        proof {
            assert(sv.take(i + 1).drop_last() =~= sv.take(i as int));
        }
        let seg = &u.segments[i];
        let chars = chars_of(seg.text.as_str());
        if !is_blank_chars(&chars) {
            let e = TranscriptionSegment { start: seg.t_start, end: seg.t_end, text: seg.text.clone() };
            let ghost before = out@;
            out.push(e);
            assert(entry_views(out@) =~= entry_views(before).push(e@));
        }
        i = i + 1;
    }
    assert(sv.take(u.segments.len() as int) =~= sv);
    out
}

/// The timing entries of a recognition pass at the requested granularity:
/// raw tokens, words, or segments.
pub fn convert_timestamps(r: &TimestampedResult, granularity: TimestampGranularity) -> (out: Vec<
    TranscriptionSegment,
>)
    ensures
        entry_views(out@) == converted(r@, granularity),
{
    match granularity {
        TimestampGranularity::Token => convert_to_raw_token_segments(r),
        TimestampGranularity::Word => convert_to_hierarchical_word_segments(r),
        TimestampGranularity::Segment => convert_to_hierarchical_segment_segments(r),
    }
}

/// Word entries, taken from the full hierarchy.
fn convert_to_hierarchical_word_segments(r: &TimestampedResult) -> (out: Vec<TranscriptionSegment>)
    ensures
        entry_views(out@) == word_entries(utterance_of(r@).segments),
{
    let u = build_utterance_from_tokens(r);
    extract_word_segments(&u)
}

/// Segment entries, taken from the full hierarchy.
fn convert_to_hierarchical_segment_segments(r: &TimestampedResult) -> (out: Vec<
    TranscriptionSegment,
>)
    ensures
        entry_views(out@) == segment_entries(utterance_of(r@).segments),
{
    let u = build_utterance_from_tokens(r);
    extract_segment_segments(&u)
}

/// The non-blank tokens, in order.
pub open spec fn nonblank_tokens(toks: Seq<TokenView>) -> Seq<TokenView>
    decreases toks.len(),
{
    if toks.len() == 0 {
        Seq::empty()
    } else if toks.last().is_blank {
        nonblank_tokens(toks.drop_last())
    } else {
        nonblank_tokens(toks.drop_last()).push(toks.last())
    }
}

/// The tokens of all groups, in order.
pub open spec fn flat_tokens(gs: Seq<Seq<TokenView>>) -> Seq<TokenView>
    decreases gs.len(),
{
    if gs.len() == 0 {
        Seq::empty()
    } else {
        flat_tokens(gs.drop_last()) + gs.last()
    }
}

/// Word grouping loses no non-blank token: the groups, laid end to end, are
/// exactly the non-blank tokens in their order, and a group is left out of
/// the words only when its marker-stripped text is whitespace alone.
pub proof fn lemma_word_groups_cover(toks: Seq<TokenView>)
    ensures
        flat_tokens(word_groups(toks)) == nonblank_tokens(toks),
        forall|k: int|
            0 <= k < word_groups(toks).len() && #[trigger] word_of(word_groups(toks)[k]).text.len()
                == 0 ==> blank(concat_all(stripped_texts(word_groups(toks)[k]))),
    decreases toks.len(),
{
    if toks.len() > 0 {
        lemma_word_groups_cover(toks.drop_last());
        let prev = word_groups(toks.drop_last());
        let t = toks.last();
        if !t.is_blank {
            if starts_with_marker(t.text) || prev.len() == 0 {
                let g = prev.push(seq![t]);
                assert(g.drop_last() =~= prev);
                assert(flat_tokens(prev) + seq![t] =~= flat_tokens(prev).push(t));
            } else {
                let g = prev.update(prev.len() - 1, prev.last().push(t));
                assert(g.drop_last() =~= prev.drop_last());
                assert(flat_tokens(prev.drop_last()) + prev.last().push(t) =~= (flat_tokens(
                    prev.drop_last(),
                ) + prev.last()).push(t));
            }
        }
    }
    let gs = word_groups(toks);
    assert forall|k: int|
        0 <= k < gs.len() && #[trigger] word_of(gs[k]).text.len() == 0 implies blank(
        concat_all(stripped_texts(gs[k])),
    ) by {
        crate::text::lemma_blank_iff_trim_empty(concat_all(stripped_texts(gs[k])));
    }
}

/// No word text is blank.
pub open spec fn all_nonblank(ws: Seq<WordView>) -> bool {
    forall|i: int| 0 <= i < ws.len() ==> !blank(#[trigger] ws[i].text)
}

/// Every group is non-empty and has no blank word.
pub open spec fn groups_ok(gs: Seq<Seq<WordView>>) -> bool {
    forall|k: int| 0 <= k < gs.len() ==> #[trigger] gs[k].len() > 0 && all_nonblank(gs[k])
}

proof fn lemma_kept_words_nonblank(gs: Seq<Seq<TokenView>>)
    ensures
        all_nonblank(kept_words(gs)),
    decreases gs.len(),
{
    if gs.len() > 0 {
        lemma_kept_words_nonblank(gs.drop_last());
        let w = word_of(gs.last());
        if w.text.len() > 0 {
            crate::text::lemma_trim_nonempty_not_blank(concat_all(stripped_texts(gs.last())));
        }
    }
}

proof fn lemma_seg_state_ok(ws: Seq<WordView>)
    requires
        all_nonblank(ws),
    ensures
        groups_ok(seg_state(ws).0),
        all_nonblank(seg_state(ws).1),
    decreases ws.len(),
{
    if ws.len() > 0 {
        assert(all_nonblank(ws.drop_last()));
        lemma_seg_state_ok(ws.drop_last());
        let st = seg_state(ws.drop_last());
        let cur = st.1.push(ws.last());
        assert(all_nonblank(cur));
    }
}

proof fn lemma_segment_groups_last(ws: Seq<WordView>)
    requires
        ws.len() > 0,
    ensures
        segment_groups(ws).len() > 0,
        segment_groups(ws).last().len() > 0,
        segment_groups(ws).last().last() == ws.last(),
{
}

/// A segment whose last word has a text has a text too; one whose last word
/// is not blank is not blank.
proof fn lemma_segment_text(g: Seq<WordView>)
    requires
        g.len() > 0,
    ensures
        g.last().text.len() > 0 ==> segment_of(g).text.len() > 0,
        !blank(g.last().text) ==> !blank(segment_of(g).text),
{
    let wt = word_texts(g);
    assert(wt.last() == g.last().text);
    if !blank(g.last().text) {
        crate::text::lemma_join2_not_blank(join_nonempty(wt.drop_last(), ' '), wt.last(), ' ');
    }
}

/// Segment closure: any non-empty word sequence whose last word has a text
/// forms at least one segment, and the last segment ends where the last word
/// ends.
pub proof fn lemma_segment_closure(ws: Seq<WordView>)
    requires
        ws.len() > 0,
        ws.last().text.len() > 0,
    ensures
        segments_of(ws).len() > 0,
        segments_of(ws).last().t_end == ws.last().t_end,
{
    lemma_segment_groups_last(ws);
    let gs = segment_groups(ws);
    lemma_segment_text(gs.last());
    assert(kept_segments(gs) == kept_segments(gs.drop_last()).push(segment_of(gs.last())));
}

pub open spec fn entry_texts(es: Seq<EntryView>) -> Seq<Seq<char>> {
    es.map_values(|e: EntryView| e.text)
}

/// The word texts of all groups, in order.
pub open spec fn flat_word_texts(gs: Seq<Seq<WordView>>) -> Seq<Seq<char>>
    decreases gs.len(),
{
    if gs.len() == 0 {
        Seq::empty()
    } else {
        flat_word_texts(gs.drop_last()) + word_texts(gs.last())
    }
}

/// The segment text of each group.
pub open spec fn joined_groups(gs: Seq<Seq<WordView>>) -> Seq<Seq<char>> {
    gs.map_values(|g: Seq<WordView>| join_nonempty(word_texts(g), ' '))
}

proof fn lemma_word_entries_in_texts(ws: Seq<WordView>)
    requires
        all_nonblank(ws),
    ensures
        entry_texts(word_entries_in(ws)) == word_texts(ws),
    decreases ws.len(),
{
    if ws.len() > 0 {
        assert(all_nonblank(ws.drop_last()));
        lemma_word_entries_in_texts(ws.drop_last());
        assert(word_texts(ws) =~= word_texts(ws.drop_last()).push(ws.last().text));
        let p = word_entries_in(ws.drop_last());
        let w = ws.last();
        assert(entry_texts(p.push(EntryView { start: w.t_start, end: w.t_end, text: w.text }))
            =~= entry_texts(p).push(w.text));
    }
}

proof fn lemma_grouped_entries(gs: Seq<Seq<WordView>>)
    requires
        groups_ok(gs),
    ensures
        kept_segments(gs).len() == gs.len(),
        entry_texts(word_entries(kept_segments(gs))) == flat_word_texts(gs),
        entry_texts(segment_entries(kept_segments(gs))) == joined_groups(gs),
    decreases gs.len(),
{
    if gs.len() > 0 {
        let g = gs.last();
        assert(g == gs[gs.len() - 1]);
        assert(groups_ok(gs.drop_last())) by {
            assert forall|k: int| 0 <= k < gs.drop_last().len() implies #[trigger] gs.drop_last()[k].len()
                > 0 && all_nonblank(gs.drop_last()[k]) by {
                assert(gs.drop_last()[k] == gs[k]);
            }
        }
        lemma_grouped_entries(gs.drop_last());
        lemma_segment_text(g);
        assert(!blank(g.last().text));
        let p = kept_segments(gs.drop_last());
        let s = segment_of(g);
        assert(kept_segments(gs) == p.push(s));
        assert(p.push(s).drop_last() =~= p);
        lemma_word_entries_in_texts(g);
        let we = word_entries(p);
        assert(entry_texts(we + word_entries_in(g)) =~= entry_texts(we) + entry_texts(
            word_entries_in(g),
        ));
        let se = segment_entries(p);
        assert(entry_texts(se.push(EntryView { start: s.t_start, end: s.t_end, text: s.text }))
            =~= entry_texts(se).push(s.text));
        assert(joined_groups(gs) =~= joined_groups(gs.drop_last()).push(s.text));
    }
}

proof fn lemma_join_flat(gs: Seq<Seq<WordView>>)
    ensures
        join_nonempty(flat_word_texts(gs), ' ') == join_nonempty(joined_groups(gs), ' '),
    decreases gs.len(),
{
    if gs.len() > 0 {
        lemma_join_flat(gs.drop_last());
        crate::text::lemma_join_nonempty_append(
            flat_word_texts(gs.drop_last()),
            word_texts(gs.last()),
            ' ',
        );
        assert(joined_groups(gs).drop_last() =~= joined_groups(gs.drop_last()));
    }
}

/// Word and segment granularity report the same words: joined by single
/// spaces, the word texts equal the segment texts. This holds whenever the
/// recognizer gave tokens with start times; without them the whole text
/// stands alone as one segment and no word is reported.
pub proof fn lemma_word_and_segment_texts_agree(r: TimestampedResultView)
    requires
        r.tokens.len() > 0,
        r.timestamps.len() > 0,
    ensures
        join_nonempty(entry_texts(converted(r, TimestampGranularity::Word)), ' ') == join_nonempty(
            entry_texts(converted(r, TimestampGranularity::Segment)),
            ' ',
        ),
{
    let ws = words_of(tokens_of(r));
    lemma_kept_words_nonblank(word_groups(tokens_of(r)));
    lemma_seg_state_ok(ws);
    let gs = segment_groups(ws);
    let st = seg_state(ws);
    assert(groups_ok(gs)) by {
        if st.1.len() > 0 {
            assert forall|k: int| 0 <= k < gs.len() implies #[trigger] gs[k].len() > 0
                && all_nonblank(gs[k]) by {
                if k < st.0.len() {
                    assert(gs[k] == st.0[k]);
                }
            }
        }
    }
    lemma_grouped_entries(gs);
    lemma_join_flat(gs);
    if ws.len() > 0 {
        lemma_segment_groups_last(ws);
    }
    assert(segments_of(ws) == kept_segments(gs));
}

} // verus!
