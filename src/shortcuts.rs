//! Keyboard shortcuts: key names and virtual-key codes, parsing a binding
//! such as `ctrl+space`, the shared shortcut settings, and the decisions of
//! the shortcut poll loop.
use vstd::prelude::*;
use crate::text::{
    chars_of, decimal, decimal_chars, eq_lit, join_all, push_char, push_chars, string_of, trim,
    trim_chars,
};

verus! {

/// What `str::to_lowercase` returns for a text.
pub uninterp spec fn lower_of(s: Seq<char>) -> Seq<char>;

/// Relies on str::to_lowercase: the Unicode lowercase mapping, which depends
/// on the characters alone.
#[verifier::external_body]
fn lowercase(s: &str) -> (r: String)
    ensures
        r@ == lower_of(s@),
{
    s.to_lowercase()
}

/// The virtual-key code of a key name that is not a single letter or digit.
pub open spec fn named_vk(s: Seq<char>) -> Option<i32> {
    if s == "win"@ || s == "meta"@ || s == "super"@ {
        Some(0x5B)
    } else if s == "ctrl"@ || s == "control"@ {
        Some(0x11)
    } else if s == "alt"@ || s == "menu"@ {
        Some(0x12)
    } else if s == "shift"@ {
        Some(0x10)
    } else if s == "f1"@ {
        Some(0x70)
    } else if s == "f2"@ {
        Some(0x71)
    } else if s == "f3"@ {
        Some(0x72)
    } else if s == "f4"@ {
        Some(0x73)
    } else if s == "f5"@ {
        Some(0x74)
    } else if s == "f6"@ {
        Some(0x75)
    } else if s == "f7"@ {
        Some(0x76)
    } else if s == "f8"@ {
        Some(0x77)
    } else if s == "f9"@ {
        Some(0x78)
    } else if s == "f10"@ {
        Some(0x79)
    } else if s == "f11"@ {
        Some(0x7A)
    } else if s == "f12"@ {
        Some(0x7B)
    } else if s == "space"@ {
        Some(0x20)
    } else if s == "enter"@ || s == "return"@ {
        Some(0x0D)
    } else if s == "escape"@ || s == "esc"@ {
        Some(0x1B)
    } else if s == "tab"@ {
        Some(0x09)
    } else if s == "backspace"@ {
        Some(0x08)
    } else if s == "delete"@ || s == "del"@ {
        Some(0x2E)
    } else if s == "insert"@ || s == "ins"@ {
        Some(0x2D)
    } else if s == "home"@ {
        Some(0x24)
    } else if s == "end"@ {
        Some(0x23)
    } else if s == "pageup"@ {
        Some(0x21)
    } else if s == "pagedown"@ {
        Some(0x22)
    } else if s == "arrowup"@ || s == "up"@ {
        Some(0x26)
    } else if s == "arrowdown"@ || s == "down"@ {
        Some(0x28)
    } else if s == "arrowleft"@ || s == "left"@ {
        Some(0x25)
    } else if s == "arrowright"@ || s == "right"@ {
        Some(0x27)
    } else {
        None
    }
}

/// The virtual-key code of a lowercase key name: a single letter `a`-`z`
/// or digit `0`-`9` maps to its uppercase ASCII code, other names through
/// `named_vk`.
pub open spec fn vk_of_name(s: Seq<char>) -> Option<i32> {
    if s.len() == 1 && 97 <= (s[0] as u32) <= 122 {
        Some((0x41 + (s[0] as u32 - 97)) as i32)
    } else if s.len() == 1 && 48 <= (s[0] as u32) <= 57 {
        Some((0x30 + (s[0] as u32 - 48)) as i32)
    } else {
        named_vk(s)
    }
}

/// The virtual-key code that a (possibly padded, mixed-case) key name
/// denotes.
pub open spec fn key_vk(name: Seq<char>) -> Option<i32> {
    vk_of_name(lower_of(trim(name)))
}

fn named_vk_of(s: &Vec<char>) -> (r: Option<i32>)
    ensures
        r == named_vk(s@),
{
    if eq_lit(s, "win") || eq_lit(s, "meta") || eq_lit(s, "super") {
        Some(0x5B)
    } else if eq_lit(s, "ctrl") || eq_lit(s, "control") {
        Some(0x11)
    } else if eq_lit(s, "alt") || eq_lit(s, "menu") {
        Some(0x12)
    } else if eq_lit(s, "shift") {
        Some(0x10)
    } else if eq_lit(s, "f1") {
        Some(0x70)
    } else if eq_lit(s, "f2") {
        Some(0x71)
    } else if eq_lit(s, "f3") {
        Some(0x72)
    } else if eq_lit(s, "f4") {
        Some(0x73)
    } else if eq_lit(s, "f5") {
        Some(0x74)
    } else if eq_lit(s, "f6") {
        Some(0x75)
    } else if eq_lit(s, "f7") {
        Some(0x76)
    } else if eq_lit(s, "f8") {
        Some(0x77)
    } else if eq_lit(s, "f9") {
        Some(0x78)
    } else if eq_lit(s, "f10") {
        Some(0x79)
    } else if eq_lit(s, "f11") {
        Some(0x7A)
    } else if eq_lit(s, "f12") {
        Some(0x7B)
    } else if eq_lit(s, "space") {
        Some(0x20)
    } else if eq_lit(s, "enter") || eq_lit(s, "return") {
        Some(0x0D)
    } else if eq_lit(s, "escape") || eq_lit(s, "esc") {
        Some(0x1B)
    } else if eq_lit(s, "tab") {
        Some(0x09)
    } else if eq_lit(s, "backspace") {
        Some(0x08)
    } else if eq_lit(s, "delete") || eq_lit(s, "del") {
        Some(0x2E)
    } else if eq_lit(s, "insert") || eq_lit(s, "ins") {
        Some(0x2D)
    } else if eq_lit(s, "home") {
        Some(0x24)
    } else if eq_lit(s, "end") {
        Some(0x23)
    } else if eq_lit(s, "pageup") {
        Some(0x21)
    } else if eq_lit(s, "pagedown") {
        Some(0x22)
    } else if eq_lit(s, "arrowup") || eq_lit(s, "up") {
        Some(0x26)
    } else if eq_lit(s, "arrowdown") || eq_lit(s, "down") {
        Some(0x28)
    } else if eq_lit(s, "arrowleft") || eq_lit(s, "left") {
        Some(0x25)
    } else if eq_lit(s, "arrowright") || eq_lit(s, "right") {
        Some(0x27)
    } else {
        None
    }
}

/// The virtual-key code of a key name, ignoring surrounding whitespace and
/// case; `None` for an unknown name.
pub fn key_name_to_vk(name: &str) -> (r: Option<i32>)
    ensures
        r == key_vk(name@),
{
    let chars = chars_of(name);
    let trimmed = string_of(&trim_chars(&chars));
    let lower = lowercase(trimmed.as_str());
    lower_key_name_to_vk(lower.as_str())
}

/// The virtual-key code of a trimmed, lowercase key name; `None` for an
/// unknown name.
pub fn lower_key_name_to_vk(name: &str) -> (r: Option<i32>)
    ensures
        r == vk_of_name(name@),
{
    let s = chars_of(name);
    if s.len() == 1 {
        let u = s[0] as u32;
        if 97 <= u && u <= 122 {
            return Some((0x41 + (u - 97)) as i32);
        }
        if 48 <= u && u <= 57 {
            return Some((0x30 + (u - 48)) as i32);
        }
    }
    named_vk_of(&s)
}

/// `v` written in decimal, with a leading `-` when negative.
pub open spec fn signed_decimal(v: int) -> Seq<char> {
    if v < 0 {
        seq!['-'] + decimal((-v) as nat)
    } else {
        decimal(v as nat)
    }
}

/// The canonical name of a virtual-key code; unknown codes are written
/// `key<code>`.
pub open spec fn key_name_of(vk: i32) -> Seq<char> {
    if vk == 0x5B {
        "win"@
    } else if vk == 0x11 {
        "ctrl"@
    } else if vk == 0x12 {
        "alt"@
    } else if vk == 0x10 {
        "shift"@
    } else if 0x41 <= vk <= 0x5A {
        seq!["abcdefghijklmnopqrstuvwxyz"@[vk - 0x41]]
    } else if 0x30 <= vk <= 0x39 {
        seq!["0123456789"@[vk - 0x30]]
    } else if 0x70 <= vk <= 0x7B {
        "f"@ + decimal((vk - 0x70 + 1) as nat)
    } else if vk == 0x20 {
        "space"@
    } else if vk == 0x0D {
        "enter"@
    } else if vk == 0x1B {
        "escape"@
    } else if vk == 0x09 {
        "tab"@
    } else if vk == 0x08 {
        "backspace"@
    } else if vk == 0x2E {
        "delete"@
    } else if vk == 0x2D {
        "insert"@
    } else if vk == 0x24 {
        "home"@
    } else if vk == 0x23 {
        "end"@
    } else if vk == 0x21 {
        "pageup"@
    } else if vk == 0x22 {
        "pagedown"@
    } else if vk == 0x26 {
        "arrowup"@
    } else if vk == 0x28 {
        "arrowdown"@
    } else if vk == 0x25 {
        "arrowleft"@
    } else if vk == 0x27 {
        "arrowright"@
    } else {
        "key"@ + signed_decimal(vk as int)
    }
}

/// The canonical name of a virtual-key code.
pub fn vk_to_key_name(vk: i32) -> (r: String)
    ensures
        r@ == key_name_of(vk),
{
    if vk == 0x5B {
        String::from_str("win")
    } else if vk == 0x11 {
        String::from_str("ctrl")
    } else if vk == 0x12 {
        String::from_str("alt")
    } else if vk == 0x10 {
        String::from_str("shift")
    } else if 0x41 <= vk && vk <= 0x5A {
        let letters = "abcdefghijklmnopqrstuvwxyz";
        proof {
            reveal_strlit("abcdefghijklmnopqrstuvwxyz");
        }
        let mut r = String::new();
        push_char(&mut r, letters.get_char((vk - 0x41) as usize));
        assert(r@ =~= key_name_of(vk));
        r
    } else if 0x30 <= vk && vk <= 0x39 {
        let digits = "0123456789";
        proof {
            reveal_strlit("0123456789");
        }
        let mut r = String::new();
        push_char(&mut r, digits.get_char((vk - 0x30) as usize));
        assert(r@ =~= key_name_of(vk));
        r
    } else if 0x70 <= vk && vk <= 0x7B {
        let mut r = String::from_str("f");
        push_chars(&mut r, &decimal_chars((vk - 0x70 + 1) as u64));
        r
    } else if vk == 0x20 {
        String::from_str("space")
    } else if vk == 0x0D {
        String::from_str("enter")
    } else if vk == 0x1B {
        String::from_str("escape")
    } else if vk == 0x09 {
        String::from_str("tab")
    } else if vk == 0x08 {
        String::from_str("backspace")
    } else if vk == 0x2E {
        String::from_str("delete")
    } else if vk == 0x2D {
        String::from_str("insert")
    } else if vk == 0x24 {
        String::from_str("home")
    } else if vk == 0x23 {
        String::from_str("end")
    } else if vk == 0x21 {
        String::from_str("pageup")
    } else if vk == 0x22 {
        String::from_str("pagedown")
    } else if vk == 0x26 {
        String::from_str("arrowup")
    } else if vk == 0x28 {
        String::from_str("arrowdown")
    } else if vk == 0x25 {
        String::from_str("arrowleft")
    } else if vk == 0x27 {
        String::from_str("arrowright")
    } else {
        let mut r = String::from_str("key");
        if vk < 0 {
            push_char(&mut r, '-');
            let mag: u64 = (0 - (vk as i64)) as u64;
            push_chars(&mut r, &decimal_chars(mag));
            assert(r@ =~= key_name_of(vk));
        } else {
            push_chars(&mut r, &decimal_chars(vk as u64));
        }
        r
    }
}

/// The pieces of `s` between occurrences of `sep`, as `str::split` gives
/// them (there is always at least one, possibly empty).
pub open spec fn split_on(s: Seq<char>, sep: char) -> Seq<Seq<char>>
    decreases s.len(),
{
    if s.len() == 0 {
        seq![Seq::empty()]
    } else {
        let p = split_on(s.drop_last(), sep);
        if s.last() == sep {
            p.push(Seq::empty())
        } else {
            p.update(p.len() - 1, p.last().push(s.last()))
        }
    }
}

/// `keys` with `k` appended, unless `k` is unknown or already there.
pub open spec fn add_key(keys: Seq<i32>, k: Option<i32>) -> Seq<i32> {
    match k {
        Some(v) => if keys.contains(v) {
            keys
        } else {
            keys.push(v)
        },
        None => keys,
    }
}

/// The distinct known keys named by the pieces, in order of first mention.
pub open spec fn parsed_keys(pieces: Seq<Seq<char>>) -> Seq<i32>
    decreases pieces.len(),
{
    if pieces.len() == 0 {
        Seq::empty()
    } else {
        add_key(parsed_keys(pieces.drop_last()), key_vk(pieces.last()))
    }
}

/// The keys of a `+`-separated binding such as `ctrl+shift+space`.
pub open spec fn binding_keys(binding: Seq<char>) -> Seq<i32> {
    parsed_keys(split_on(binding, '+'))
}

fn contains_key(keys: &Vec<i32>, v: i32) -> (r: bool)
    ensures
        r == keys@.contains(v),
{
    let mut i: usize = 0;
    while i < keys.len()
        invariant
            i <= keys.len(),
            forall|k: int| 0 <= k < i ==> keys@[k] != v,
        decreases keys.len() - i,
    {
        if keys[i] == v {
            assert(keys@[i as int] == v);
            return true;
        }
        i = i + 1;
    }
    false
}

fn add_piece(keys: &mut Vec<i32>, piece: &Vec<char>)
    ensures
        final(keys)@ == add_key(old(keys)@, key_vk(piece@)),
{
    let name = string_of(piece);
    match key_name_to_vk(name.as_str()) {
        Some(vk) => {
            if !contains_key(keys, vk) {
                keys.push(vk);
            }
        },
        None => {},
    }
}

/// The distinct known keys of a `+`-separated binding, in order of first
/// mention; unknown names are skipped.
pub fn parse_binding_keys(binding: &str) -> (keys: Vec<i32>)
    ensures
        keys@ == binding_keys(binding@),
{
    let s = chars_of(binding);
    let mut keys: Vec<i32> = Vec::new();
    let mut current: Vec<char> = Vec::new();
    let mut i: usize = 0;
    while i < s.len()
        invariant
            i <= s.len(),
            split_on(s@.take(i as int), '+').len() >= 1,
            current@ == split_on(s@.take(i as int), '+').last(),
            keys@ == parsed_keys(split_on(s@.take(i as int), '+').drop_last()),
        decreases s.len() - i,
    {
        let ghost sp = split_on(s@.take(i as int), '+');
        proof {
            assert(s@.take(i + 1).drop_last() =~= s@.take(i as int));
        }
        if s[i] == '+' {
            add_piece(&mut keys, &current);
            current = Vec::new();
            proof {
                let sp2 = split_on(s@.take(i + 1), '+');
                assert(sp2.drop_last() =~= sp);
                assert(sp =~= sp.drop_last().push(sp.last()));
            }
        } else {
            current.push(s[i]);
            proof {
                let sp2 = split_on(s@.take(i + 1), '+');
                assert(sp2.drop_last() =~= sp.drop_last());
            }
        }
        i = i + 1;
    }
    assert(s@.take(s.len() as int) =~= s@);
    add_piece(&mut keys, &current);
    proof {
        let sp = split_on(s@, '+');
        assert(sp =~= sp.drop_last().push(sp.last()));
    }
    keys
}

/// The names of the keys.
pub open spec fn key_names(keys: Seq<i32>) -> Seq<Seq<char>> {
    keys.map_values(|k: i32| key_name_of(k))
}

/// The canonical binding of the keys: their names joined by `+`.
pub fn keys_to_string(keys: &[i32]) -> (r: String)
    ensures
        r@ == join_all(key_names(keys@), '+'),
{
    let ghost names = key_names(keys@);
    let mut r = String::new();
    let mut i: usize = 0;
    while i < keys.len()
        invariant
            i <= keys.len(),
            names == key_names(keys@),
            r@ == join_all(names.take(i as int), '+'),
        decreases keys.len() - i,
    {
        proof {
            assert(names.take(i + 1).drop_last() =~= names.take(i as int));
        }
        if i > 0 {
            push_char(&mut r, '+');
        }
        let name = vk_to_key_name(keys[i]);
        let chars = chars_of(name.as_str());
        push_chars(&mut r, &chars);
        i = i + 1;
    }
    assert(names.take(keys.len() as int) =~= names);
    r
}

fn copy_keys(v: &Vec<i32>) -> (r: Vec<i32>)
    ensures
        r@ == v@,
{
    let mut r: Vec<i32> = Vec::new();
    let mut i: usize = 0;
    while i < v.len()
        invariant
            i <= v.len(),
            r@ == v@.take(i as int),
        decreases v.len() - i,
    {
        r.push(v[i]);
        i = i + 1;
        assert(r@ =~= v@.take(i as int));
    }
    assert(v@.take(v.len() as int) =~= v@);
    r
}

/// The keys of the recording shortcut.
pub struct RecordShortcutKeys(Vec<i32>);

impl View for RecordShortcutKeys {
    type V = Seq<i32>;

    closed spec fn view(&self) -> Seq<i32> {
        self.0@
    }
}

impl RecordShortcutKeys {
    pub fn new(keys: Vec<i32>) -> (r: Self)
        ensures
            r@ == keys@,
    {
        RecordShortcutKeys(keys)
    }

    pub fn get(&self) -> (r: Vec<i32>)
        ensures
            r@ == self@,
    {
        copy_keys(&self.0)
    }

    pub fn set(&mut self, keys: Vec<i32>)
        ensures
            final(self)@ == keys@,
    {
        self.0 = keys;
    }
}

/// The keys of the shortcut that pastes the last transcript again.
pub struct LastTranscriptShortcutKeys(Vec<i32>);

impl View for LastTranscriptShortcutKeys {
    type V = Seq<i32>;

    closed spec fn view(&self) -> Seq<i32> {
        self.0@
    }
}

impl LastTranscriptShortcutKeys {
    pub fn new(keys: Vec<i32>) -> (r: Self)
        ensures
            r@ == keys@,
    {
        LastTranscriptShortcutKeys(keys)
    }

    pub fn get(&self) -> (r: Vec<i32>)
        ensures
            r@ == self@,
    {
        copy_keys(&self.0)
    }

    pub fn set(&mut self, keys: Vec<i32>)
        ensures
            final(self)@ == keys@,
    {
        self.0 = keys;
    }
}

/// Whether the shortcuts are paused.
pub struct TranscriptionSuspended(bool);

impl View for TranscriptionSuspended {
    type V = bool;

    closed spec fn view(&self) -> bool {
        self.0
    }
}

impl TranscriptionSuspended {
    pub fn new(suspended: bool) -> (r: Self)
        ensures
            r@ == suspended,
    {
        TranscriptionSuspended(suspended)
    }

    pub fn get(&self) -> (r: bool)
        ensures
            r == self@,
    {
        self.0
    }

    pub fn set(&mut self, value: bool)
        ensures
            final(self)@ == value,
    {
        self.0 = value;
    }
}

/// Every key of `keys` is among `pressed`.
pub open spec fn all_down(keys: Seq<i32>, pressed: Seq<i32>) -> bool {
    forall|i: int| 0 <= i < keys.len() ==> pressed.contains(#[trigger] keys[i])
}

fn all_keys_down(keys: &[i32], pressed: &[i32]) -> (r: bool)
    ensures
        r == all_down(keys@, pressed@),
{
    let mut i: usize = 0;
    while i < keys.len()
        invariant
            i <= keys.len(),
            forall|k: int| 0 <= k < i ==> pressed@.contains(#[trigger] keys@[k]),
        decreases keys.len() - i,
    {
        let mut found = false;
        let mut j: usize = 0;
        while j < pressed.len()
            invariant
                j <= pressed.len(),
                i < keys.len(),
                found ==> pressed@.contains(keys@[i as int]),
                !found ==> forall|m: int| 0 <= m < j ==> pressed@[m] != keys@[i as int],
            decreases pressed.len() - j,
        {
            if pressed[j] == keys[i] {
                found = true;
                assert(pressed@[j as int] == keys@[i as int]);
            }
            j = j + 1;
        }
        if !found {
            assert(!pressed@.contains(keys@[i as int]));
            return false;
        }
        i = i + 1;
    }
    true
}

/// What one pass of the shortcut poll loop asks for.
#[derive(Clone, Copy, Debug, PartialEq, Eq, Structural)]
pub struct ShortcutActions {
    pub start_recording: bool,
    pub stop_recording: bool,
    pub paste_last_transcript: bool,
}

/// Memory of the shortcut poll loop between passes.
#[derive(Clone, Copy, Debug, PartialEq, Eq, Structural)]
pub struct ShortcutState {
    pub is_recording: bool,
    pub last_transcript_pressed: bool,
}

/// One pass of the poll loop: returns the new state and the actions. Nothing
/// happens while suspended or when the recording shortcut has no key.
/// Recording starts when all its keys go down and stops when one is released;
/// the last transcript is pasted once per press of its (non-empty) shortcut.
pub open spec fn shortcut_step(
    st: ShortcutState,
    suspended: bool,
    record_keys: Seq<i32>,
    last_keys: Seq<i32>,
    pressed: Seq<i32>,
) -> (ShortcutState, ShortcutActions) {
    if suspended || record_keys.len() == 0 {
        (st, ShortcutActions { start_recording: false, stop_recording: false, paste_last_transcript: false })
    } else {
        let rec = all_down(record_keys, pressed);
        let last = last_keys.len() > 0 && all_down(last_keys, pressed);
        (
            ShortcutState { is_recording: rec, last_transcript_pressed: last },
            ShortcutActions {
                start_recording: !st.is_recording && rec,
                stop_recording: st.is_recording && !rec,
                paste_last_transcript: !st.last_transcript_pressed && last,
            },
        )
    }
}

impl ShortcutState {
    /// Not recording, shortcut released.
    pub fn new() -> (r: Self)
        ensures
            !r.is_recording,
            !r.last_transcript_pressed,
    {
        ShortcutState { is_recording: false, last_transcript_pressed: false }
    }

    /// One pass of the poll loop, given the keys held down now.
    pub fn step(
        &mut self,
        suspended: bool,
        record_keys: &[i32],
        last_keys: &[i32],
        pressed: &[i32],
    ) -> (r: ShortcutActions)
        ensures
            (*final(self), r) == shortcut_step(*old(self), suspended, record_keys@, last_keys@, pressed@),
    {
        let none = ShortcutActions {
            start_recording: false,
            stop_recording: false,
            paste_last_transcript: false,
        };
        if suspended || record_keys.len() == 0 {
            return none;
        }
        let rec = all_keys_down(record_keys, pressed);
        let last = last_keys.len() > 0 && all_keys_down(last_keys, pressed);
        let mut actions = none;
        if !self.is_recording && rec {
            actions.start_recording = true;
            self.is_recording = true;
        }
        if self.is_recording && !rec {
            actions.stop_recording = true;
            self.is_recording = false;
        }
        if !self.last_transcript_pressed && last {
            actions.paste_last_transcript = true;
            self.last_transcript_pressed = true;
        }
        if self.last_transcript_pressed && !last {
            self.last_transcript_pressed = false;
        }
        actions
    }
}

} // verus!
