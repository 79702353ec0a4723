//! The user's dictionary of words that transcriptions are corrected toward.
use vstd::prelude::*;
use crate::shortcuts::split_on;
use crate::text::{chars_of, is_whitespace, is_ws, string_of};

verus! {

pub open spec fn texts_of(v: Seq<String>) -> Seq<Seq<char>> {
    v.map_values(|s: String| s@)
}

fn copy_texts(v: &Vec<String>) -> (r: Vec<String>)
    ensures
        texts_of(r@) == texts_of(v@),
{
    let mut r: Vec<String> = Vec::new();
    let mut i: usize = 0;
    while i < v.len()
        invariant
            i <= v.len(),
            texts_of(r@) == texts_of(v@).take(i as int),
        decreases v.len() - i,
    {
        let s = v[i].clone();
        let ghost before = r@;
        r.push(s);
        assert(texts_of(r@) =~= texts_of(before).push(s@));
        assert(texts_of(v@).take(i + 1) =~= texts_of(v@).take(i as int).push(s@));
        i = i + 1;
    }
    assert(texts_of(v@).take(v.len() as int) =~= texts_of(v@));
    r
}

/// The dictionary words.
pub struct Dictionary(Vec<String>);

impl View for Dictionary {
    type V = Seq<Seq<char>>;

    closed spec fn view(&self) -> Seq<Seq<char>> {
        texts_of(self.0@)
    }
}

impl Dictionary {
    pub fn new(dictionary: Vec<String>) -> (r: Self)
        ensures
            r@ == texts_of(dictionary@),
    {
        Dictionary(dictionary)
    }

    pub fn get(&self) -> (r: Vec<String>)
        ensures
            texts_of(r@) == self@,
    {
        copy_texts(&self.0)
    }

    pub fn set(&mut self, dictionary: Vec<String>)
        ensures
            final(self)@ == texts_of(dictionary@),
    {
        self.0 = dictionary;
    }
}

/// The maximal runs of non-whitespace characters of `s`, in order, as
/// `str::split_whitespace` gives them.
pub open spec fn ws_words(s: Seq<char>) -> Seq<Seq<char>>
    decreases s.len(),
{
    if s.len() == 0 {
        Seq::empty()
    } else {
        let p = ws_words(s.drop_last());
        let c = s.last();
        if is_ws(c) {
            p
        } else if s.len() >= 2 && !is_ws(s[s.len() - 2]) {
            p.update(p.len() - 1, p.last().push(c))
        } else {
            p.push(seq![c])
        }
    }
}

/// `s` with every occurrence of `from` replaced by `to`, scanning left to
/// right without overlaps, as `str::replace` does for a non-empty pattern.
pub open spec fn replaced(s: Seq<char>, from: Seq<char>, to: Seq<char>) -> Seq<char>
    decreases s.len(),
{
    if from.len() == 0 || s.len() < from.len() {
        s
    } else if s.take(from.len() as int) == from {
        to + replaced(s.skip(from.len() as int), from, to)
    } else {
        seq![s[0]] + replaced(s.drop_first(), from, to)
    }
}

/// Two phonetic encodings match when they share an alternative (the
/// alternatives of an encoding are separated by `|`).
pub open spec fn codes_match(candidate: Seq<char>, dict_code: Seq<char>) -> bool {
    exists|j: int|
        0 <= j < split_on(dict_code, '|').len() && split_on(candidate, '|').contains(
            #[trigger] split_on(dict_code, '|')[j],
        )
}

/// Applies the first `j` dictionary entries to `cur` for one transcribed
/// word: each entry whose encoding matches the word's replaces the word by
/// the dictionary spelling.
pub open spec fn apply_entries(
    cur: Seq<char>,
    word: Seq<char>,
    word_code: Seq<char>,
    dict: Seq<Seq<char>>,
    dict_codes: Seq<Seq<char>>,
    j: int,
) -> Seq<char>
    decreases j,
{
    if j <= 0 {
        cur
    } else {
        let c = apply_entries(cur, word, word_code, dict, dict_codes, j - 1);
        if codes_match(word_code, dict_codes[j - 1]) {
            replaced(c, word, dict[j - 1])
        } else {
            c
        }
    }
}

/// Applies the dictionary for the first `i` transcribed words, in order.
pub open spec fn apply_words(
    t: Seq<char>,
    words: Seq<Seq<char>>,
    word_codes: Seq<Seq<char>>,
    dict: Seq<Seq<char>>,
    dict_codes: Seq<Seq<char>>,
    i: int,
) -> Seq<char>
    decreases i,
{
    if i <= 0 {
        t
    } else {
        apply_entries(
            apply_words(t, words, word_codes, dict, dict_codes, i - 1),
            words[i - 1],
            word_codes[i - 1],
            dict,
            dict_codes,
            dict.len() as int,
        )
    }
}

/// The transcription corrected toward the dictionary, given the phonetic
/// encodings of its words and of the dictionary words.
pub open spec fn corrected(
    t: Seq<char>,
    word_codes: Seq<Seq<char>>,
    dict: Seq<Seq<char>>,
    dict_codes: Seq<Seq<char>>,
) -> Seq<char> {
    apply_words(t, ws_words(t), word_codes, dict, dict_codes, ws_words(t).len() as int)
}

pub open spec fn char_seqs(v: Seq<Vec<char>>) -> Seq<Seq<char>> {
    v.map_values(|c: Vec<char>| c@)
}

proof fn lemma_ws_words_nonempty(s: Seq<char>)
    ensures
        s.len() > 0 && !is_ws(s.last()) ==> ws_words(s).len() > 0,
        forall|k: int| 0 <= k < ws_words(s).len() ==> #[trigger] ws_words(s)[k].len() > 0,
    decreases s.len(),
{
    if s.len() > 0 {
        let t = s.drop_last();
        lemma_ws_words_nonempty(t);
        if s.len() >= 2 {
            assert(t.last() == s[s.len() - 2]);
        }
        let p = ws_words(t);
        let w = ws_words(s);
        assert forall|k: int| 0 <= k < w.len() implies #[trigger] w[k].len() > 0 by {
            if k < p.len() && k != p.len() - 1 {
                assert(w[k] == p[k]);
            }
        }
    }
}

fn words_of_chars(s: &Vec<char>) -> (words: Vec<Vec<char>>)
    ensures
        char_seqs(words@) == ws_words(s@),
{
    let mut words: Vec<Vec<char>> = Vec::new();
    let mut current: Vec<char> = Vec::new();
    let mut in_word = false;
    let mut i: usize = 0;
    while i < s.len()
        invariant
            i <= s.len(),
            in_word ==> i > 0 && !is_ws(s@[i - 1]),
            !in_word ==> i == 0 || is_ws(s@[i - 1]),
            in_word ==> ws_words(s@.take(i as int)) == char_seqs(words@).push(current@),
            !in_word ==> ws_words(s@.take(i as int)) == char_seqs(words@),
        decreases s.len() - i,
    {
        let ghost t = s@.take(i + 1);
        proof {
            assert(t.drop_last() =~= s@.take(i as int));
            if i >= 1 {
                assert(t[t.len() - 2] == s@[i - 1]);
            }
        }
        let c = s[i];
        if is_whitespace(c) {
            if in_word {
                let ghost before = words@;
                let w = current;
                words.push(w);
                current = Vec::new();
                assert(char_seqs(words@) =~= char_seqs(before).push(w@));
                in_word = false;
            }
        } else {
            if in_word {
                let ghost cur0 = current@;
                current.push(c);
                proof {
                    let p = ws_words(s@.take(i as int));
                    assert(p.update(p.len() - 1, p.last().push(c)) =~= char_seqs(words@).push(
                        current@,
                    ));
                }
            } else {
                current = Vec::new();
                current.push(c);
                in_word = true;
                assert(current@ =~= seq![c]);
            }
        }
        i = i + 1;
    }
    assert(s@.take(s.len() as int) =~= s@);
    if in_word {
        let ghost before = words@;
        let w = current;
        words.push(w);
        assert(char_seqs(words@) =~= char_seqs(before).push(w@));
    }
    words
}

/// The whitespace-separated words of a transcription.
pub fn split_whitespace_words(text: &str) -> (words: Vec<String>)
    ensures
        texts_of(words@) == ws_words(text@),
{
    let chars = chars_of(text);
    let w = words_of_chars(&chars);
    let mut out: Vec<String> = Vec::new();
    let mut i: usize = 0;
    while i < w.len()
        invariant
            i <= w.len(),
            texts_of(out@) == char_seqs(w@).take(i as int),
        decreases w.len() - i,
    {
        let s = string_of(&w[i]);
        let ghost before = out@;
        out.push(s);
        assert(texts_of(out@) =~= texts_of(before).push(s@));
        assert(char_seqs(w@).take(i + 1) =~= char_seqs(w@).take(i as int).push(w@[i as int]@));
        i = i + 1;
    }
    assert(char_seqs(w@).take(w.len() as int) =~= char_seqs(w@));
    out
}

fn eq_chars(a: &Vec<char>, b: &Vec<char>) -> (r: bool)
    ensures
        r == (a@ == b@),
{
    if a.len() != b.len() {
        return false;
    }
    let mut i: usize = 0;
    while i < a.len()
        invariant
            i <= a.len(),
            a.len() == b.len(),
            forall|k: int| 0 <= k < i ==> a@[k] == b@[k],
        decreases a.len() - i,
    {
        if a[i] != b[i] {
            return false;
        }
        i = i + 1;
    }
    assert(a@ =~= b@);
    true
}

fn split_chars(s: &Vec<char>, sep: char) -> (pieces: Vec<Vec<char>>)
    ensures
        char_seqs(pieces@) == split_on(s@, sep),
{
    let mut pieces: Vec<Vec<char>> = Vec::new();
    let mut current: Vec<char> = Vec::new();
    let mut i: usize = 0;
    while i < s.len()
        invariant
            i <= s.len(),
            split_on(s@.take(i as int), sep) == char_seqs(pieces@).push(current@),
        decreases s.len() - i,
    {
        proof {
            assert(s@.take(i + 1).drop_last() =~= s@.take(i as int));
        }
        if s[i] == sep {
            let ghost before = pieces@;
            let w = current;
            pieces.push(w);
            current = Vec::new();
            assert(char_seqs(pieces@) =~= char_seqs(before).push(w@));
            assert(char_seqs(pieces@).push(current@) =~= char_seqs(before).push(w@).push(
                Seq::empty(),
            ));
        } else {
            let ghost sp = split_on(s@.take(i as int), sep);
            current.push(s[i]);
            assert(sp.update(sp.len() - 1, sp.last().push(s@[i as int])) =~= char_seqs(
                pieces@,
            ).push(current@));
        }
        i = i + 1;
    }
    assert(s@.take(s.len() as int) =~= s@);
    let ghost before = pieces@;
    let w = current;
    pieces.push(w);
    assert(char_seqs(pieces@) =~= char_seqs(before).push(w@));
    pieces
}

/// Whether two phonetic encodings share an alternative.
pub fn phonetic_codes_match(candidate: &str, dict_code: &str) -> (r: bool)
    ensures
        r == codes_match(candidate@, dict_code@),
{
    let cand = split_chars(&chars_of(candidate), '|');
    let dict = split_chars(&chars_of(dict_code), '|');
    let ghost cs = char_seqs(cand@);
    let ghost ds = char_seqs(dict@);
    let mut j: usize = 0;
    while j < dict.len()
        invariant
            j <= dict.len(),
            cs == split_on(candidate@, '|'),
            ds == split_on(dict_code@, '|'),
            cs == char_seqs(cand@),
            ds == char_seqs(dict@),
            forall|m: int| 0 <= m < j ==> !cs.contains(#[trigger] ds[m]),
        decreases dict.len() - j,
    {
        let mut k: usize = 0;
        while k < cand.len()
            invariant
                k <= cand.len(),
                j < dict.len(),
                cs == split_on(candidate@, '|'),
                ds == split_on(dict_code@, '|'),
                cs == char_seqs(cand@),
                ds == char_seqs(dict@),
                forall|m: int| 0 <= m < k ==> cs[m] != ds[j as int],
            decreases cand.len() - k,
        {
            if eq_chars(&cand[k], &dict[j]) {
                assert(cs[k as int] == ds[j as int]);
                assert(cs.contains(ds[j as int]));
                assert(split_on(candidate@, '|').contains(split_on(dict_code@, '|')[j as int]));
                return true;
            }
            k = k + 1;
        }
        assert(!cs.contains(ds[j as int]));
        j = j + 1;
    }
    false
}

proof fn lemma_replaced_step(s: Seq<char>, from: Seq<char>, to: Seq<char>, i: int)
    requires
        from.len() > 0,
        0 <= i < s.len(),
        !(i + from.len() <= s.len() && s.subrange(i, i + from.len()) == from),
    ensures
        replaced(s.skip(i), from, to) == seq![s[i]] + replaced(s.skip(i + 1), from, to),
{
    let t = s.skip(i);
    assert(t.drop_first() =~= s.skip(i + 1));
    if t.len() < from.len() {
        assert(s.skip(i + 1).len() < from.len());
        assert(t =~= seq![s[i]] + s.skip(i + 1));
    } else {
        assert(t.take(from.len() as int) =~= s.subrange(i, i + from.len()));
    }
}

/// `s` with every occurrence of the non-empty `from` replaced by `to`.
pub fn replace_all(s: &Vec<char>, from: &Vec<char>, to: &Vec<char>) -> (r: Vec<char>)
    requires
        from.len() > 0,
    ensures
        r@ == replaced(s@, from@, to@),
{
    let n = s.len();
    let m = from.len();
    let mut out: Vec<char> = Vec::new();
    let mut i: usize = 0;
    assert(s@.skip(0) =~= s@);
    assert(out@ + s@ =~= s@);
    while i < n
        invariant
            i <= n,
            n == s.len(),
            m == from.len(),
            m > 0,
            out@ + replaced(s@.skip(i as int), from@, to@) == replaced(s@, from@, to@),
        decreases n - i,
    {
        let mut is_match = m <= n - i;
        if is_match {
            let mut k: usize = 0;
            while k < m
                invariant
                    k <= m,
                    i + m <= n,
                    n == s.len(),
                    m == from.len(),
                    is_match ==> forall|q: int| 0 <= q < k ==> s@[i + q] == from@[q],
                    !is_match ==> s@.subrange(i as int, i + m) != from@,
                decreases m - k,
            {
                if is_match && s[i + k] != from[k] {
                    is_match = false;
                    assert(s@.subrange(i as int, i + m)[k as int] != from@[k as int]);
                }
                k = k + 1;
            }
            if is_match {
                assert(s@.subrange(i as int, i + m) =~= from@);
            }
        }
        if is_match {
            let ghost out0 = out@;
            let mut k: usize = 0;
            while k < to.len()
                invariant
                    k <= to.len(),
                    out@ == out0 + to@.take(k as int),
                decreases to.len() - k,
            {
                out.push(to[k]);
                k = k + 1;
                assert(to@.take(k as int) =~= to@.take(k - 1).push(to@[k - 1]));
            }
            proof {
                assert(to@.take(to.len() as int) =~= to@);
                let t = s@.skip(i as int);
                assert(t.take(m as int) =~= s@.subrange(i as int, i + m));
                assert(t.skip(m as int) =~= s@.skip(i + m));
                assert(out0 + (to@ + replaced(s@.skip(i + m), from@, to@)) =~= out@ + replaced(
                    s@.skip(i + m),
                    from@,
                    to@,
                ));
            }
            i = i + m;
        } else {
            proof {
                lemma_replaced_step(s@, from@, to@, i as int);
                assert(out@ + (seq![s@[i as int]] + replaced(s@.skip(i + 1), from@, to@)) =~= out@.push(
                    s@[i as int],
                ) + replaced(s@.skip(i + 1), from@, to@));
            }
            out.push(s[i]);
            i = i + 1;
        }
    }
    proof {
        assert(s@.skip(n as int) =~= Seq::<char>::empty());
        assert(out@ + Seq::<char>::empty() =~= out@);
    }
    out
}

/// Corrects a transcription toward the dictionary. `word_codes` holds the
/// phonetic encoding of each whitespace-separated word of the transcription
/// (see `split_whitespace_words`), `dict_codes` that of each dictionary word.
/// For each transcribed word in turn, and each dictionary word in turn whose
/// encoding shares an alternative with the word's, every occurrence of the
/// word in the text is replaced by the dictionary spelling.
pub fn fix_transcription_with_codes(
    transcription: &str,
    word_codes: &Vec<String>,
    dictionary: &Vec<String>,
    dict_codes: &Vec<String>,
) -> (r: String)
    requires
        word_codes.len() == ws_words(transcription@).len(),
        dict_codes.len() == dictionary.len(),
    ensures
        r@ == corrected(
            transcription@,
            texts_of(word_codes@),
            texts_of(dictionary@),
            texts_of(dict_codes@),
        ),
{
    let t = chars_of(transcription);
    let words = words_of_chars(&t);
    proof {
        lemma_ws_words_nonempty(t@);
    }
    let ghost wc = texts_of(word_codes@);
    let ghost dw = texts_of(dictionary@);
    let ghost dc = texts_of(dict_codes@);
    let ghost ws = ws_words(t@);
    let mut cur = chars_of(transcription);
    let mut i: usize = 0;
    while i < words.len()
        invariant
            i <= words.len(),
            char_seqs(words@) == ws,
            ws == ws_words(transcription@),
            forall|k: int| 0 <= k < ws.len() ==> #[trigger] ws[k].len() > 0,
            word_codes.len() == ws.len(),
            dict_codes.len() == dictionary.len(),
            wc == texts_of(word_codes@),
            dw == texts_of(dictionary@),
            dc == texts_of(dict_codes@),
            cur@ == apply_words(transcription@, ws, wc, dw, dc, i as int),
        decreases words.len() - i,
    {
        let ghost start = cur@;
        assert(words@[i as int]@ == ws[i as int]);
        let mut j: usize = 0;
        while j < dictionary.len()
            invariant
                j <= dictionary.len(),
                i < words.len(),
                char_seqs(words@) == ws,
                words@[i as int]@ == ws[i as int],
                ws[i as int].len() > 0,
                word_codes.len() == ws.len(),
                dict_codes.len() == dictionary.len(),
                wc == texts_of(word_codes@),
                dw == texts_of(dictionary@),
                dc == texts_of(dict_codes@),
                cur@ == apply_entries(start, ws[i as int], wc[i as int], dw, dc, j as int),
            decreases dictionary.len() - j,
        {
            if phonetic_codes_match(word_codes[i].as_str(), dict_codes[j].as_str()) {
                let to = chars_of(dictionary[j].as_str());
                cur = replace_all(&cur, &words[i], &to);
            }
            j = j + 1;
        }
        i = i + 1;
    }
    string_of(&cur)
}

} // verus!
