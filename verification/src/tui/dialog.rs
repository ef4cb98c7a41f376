//! The one-line input prompt shown at the bottom of the screen.
//! The cursor is a byte offset into the UTF-8 text, always on a character boundary.
use vstd::prelude::*;
use vstd::utf8::{encode_scalar, encode_utf8};
use crate::text::{chars_of, push_char, string_from_range};

verus! {

/// Number of bytes of the UTF-8 encoding of `c`.
pub open spec fn char_width(c: char) -> nat {
    let u = c as u32;
    if u <= 0x7F {
        1
    } else if u <= 0x7FF {
        2
    } else if u <= 0xFFFF {
        3
    } else {
        4
    }
}

/// Number of bytes of the UTF-8 encoding of `s`.
pub open spec fn utf8_len(s: Seq<char>) -> nat
    decreases s.len(),
{
    if s.len() == 0 {
        0
    } else {
        char_width(s[0]) + utf8_len(s.drop_first())
    }
}

/// `utf8_len` is the length of vstd's `encode_utf8`.
pub proof fn lemma_utf8_len_is_encoding_len(s: Seq<char>)
    ensures
        encode_utf8(s).len() == utf8_len(s),
    decreases s.len(),
{
    if s.len() > 0 {
        lemma_utf8_len_is_encoding_len(s.drop_first());
        let u = s[0] as u32;
        vstd::utf8::char_is_scalar(s[0]);
        assert(encode_scalar(u).len() == char_width(s[0]));
    }
}

pub proof fn lemma_utf8_len_concat(a: Seq<char>, b: Seq<char>)
    ensures
        utf8_len(a + b) == utf8_len(a) + utf8_len(b),
    decreases a.len(),
{
    if a.len() > 0 {
        lemma_utf8_len_concat(a.drop_first(), b);
        assert((a + b).drop_first() =~= a.drop_first() + b);
    } else {
        assert(a + b =~= b);
    }
}

pub proof fn lemma_utf8_len_take_step(s: Seq<char>, k: int)
    requires
        0 <= k < s.len(),
    ensures
        utf8_len(s.take(k + 1)) == utf8_len(s.take(k)) + char_width(s[k]),
{
    lemma_utf8_len_concat(s.take(k), seq![s[k]]);
    assert(s.take(k) + seq![s[k]] =~= s.take(k + 1));
    assert(seq![s[k]].drop_first() =~= Seq::<char>::empty());
    assert(utf8_len(seq![s[k]]) == char_width(s[k]) + utf8_len(Seq::<char>::empty()));
}

pub proof fn lemma_utf8_len_prefix_strict(s: Seq<char>, j: int, k: int)
    requires
        0 <= j < k <= s.len(),
    ensures
        utf8_len(s.take(j)) < utf8_len(s.take(k)),
    decreases k - j,
{
    lemma_utf8_len_take_step(s, k - 1);
    if j < k - 1 {
        lemma_utf8_len_prefix_strict(s, j, k - 1);
    }
}

pub proof fn lemma_utf8_len_prefix_bound(s: Seq<char>, k: int)
    requires
        0 <= k <= s.len(),
    ensures
        utf8_len(s.take(k)) <= utf8_len(s),
{
    if k < s.len() {
        lemma_utf8_len_prefix_strict(s, k, s.len() as int);
    }
    assert(s.take(s.len() as int) =~= s);
}

/// Whether the byte offset `cursor` lies on a character boundary of `s`.
pub open spec fn is_boundary(s: Seq<char>, cursor: nat) -> bool {
    exists|k: int| 0 <= k <= s.len() && utf8_len(#[trigger] s.take(k)) == cursor
}

/// The character index of a boundary byte offset.
pub open spec fn char_index(s: Seq<char>, cursor: nat) -> int {
    choose|k: int| 0 <= k <= s.len() && utf8_len(#[trigger] s.take(k)) == cursor
}

pub proof fn lemma_char_index_unique(s: Seq<char>, cursor: nat, k: int)
    requires
        0 <= k <= s.len(),
        utf8_len(s.take(k)) == cursor,
    ensures
        char_index(s, cursor) == k,
{
    let c = char_index(s, cursor);
    assert(0 <= c <= s.len() && utf8_len(s.take(c)) == cursor);
    if c < k {
        lemma_utf8_len_prefix_strict(s, c, k);
    } else if k < c {
        lemma_utf8_len_prefix_strict(s, k, c);
    }
}

/// Text and cursor after typing `c` at the cursor.
pub open spec fn insert_char_spec(input: Seq<char>, cursor: nat, c: char) -> (Seq<char>, nat) {
    let k = char_index(input, cursor);
    (input.take(k) + seq![c] + input.skip(k), cursor + char_width(c))
}

/// Text and cursor after deleting the character before the cursor.
pub open spec fn backspace_spec(input: Seq<char>, cursor: nat) -> (Seq<char>, nat) {
    if cursor == 0 {
        (input, cursor)
    } else {
        let k = char_index(input, cursor);
        (input.take(k - 1) + input.skip(k), utf8_len(input.take(k - 1)))
    }
}

/// Number of UTF-8 bytes of one character (`char::len_utf8`).
pub fn char_len_utf8(c: char) -> (n: usize)
    ensures
        n == char_width(c),
{
    let u = c as u32;
    if u <= 0x7F {
        1
    } else if u <= 0x7FF {
        2
    } else if u <= 0xFFFF {
        3
    } else {
        4
    }
}

/// State for a text input dialog.
pub struct InputDialog {
    pub title: String,
    pub prompt: String,
    pub input: String,
    /// Byte offset of the cursor in `input`.
    pub cursor: usize,
    pub active: bool,
}

impl InputDialog {
    /// The cursor lies on a character boundary of the input.
    pub open spec fn cursor_ok(&self) -> bool {
        is_boundary(self.input@, self.cursor as nat)
    }

    /// A closed dialog with the given title and prompt and no input.
    pub fn new(title: &str, prompt: &str) -> (d: Self)
        ensures
            d.title@ == title@,
            d.prompt@ == prompt@,
            d.input@ == Seq::<char>::empty(),
            d.cursor == 0,
            !d.active,
            d.cursor_ok(),
    {
        let d = Self {
            title: String::from_str(title),
            prompt: String::from_str(prompt),
            input: String::new(),
            cursor: 0,
            active: false,
        };
        assert(d.input@.take(0) =~= d.input@);
        d
    }

    /// Open with empty input.
    pub fn open(&mut self)
        ensures
            final(self).input@ == Seq::<char>::empty(),
            final(self).cursor == 0,
            final(self).active,
            final(self).title == old(self).title,
            final(self).prompt == old(self).prompt,
            final(self).cursor_ok(),
    {
        self.input = String::new();
        self.cursor = 0;
        self.active = true;
        assert(self.input@.take(0) =~= self.input@);
    }

    /// Open with pre-filled input text; the cursor goes to the end.
    pub fn open_with(&mut self, prefill: &str)
        ensures
            final(self).input@ == prefill@,
            final(self).cursor == utf8_len(prefill@) as usize,
            final(self).active,
            final(self).title == old(self).title,
            final(self).prompt == old(self).prompt,
            utf8_len(prefill@) <= usize::MAX ==> final(self).cursor_ok(),
    {
        self.input = String::from_str(prefill);
        self.cursor = self.input.as_str().len();
        self.active = true;
        proof {
            lemma_utf8_len_is_encoding_len(self.input@);
            assert(self.input@.take(self.input@.len() as int) =~= self.input@);
            if utf8_len(prefill@) <= usize::MAX {
                assert(utf8_len(self.input@.take(self.input@.len() as int)) == self.cursor);
            }
        }
    }

    /// Deactivate the dialog; the input stays.
    pub fn close(&mut self)
        ensures
            !final(self).active,
            final(self).input == old(self).input,
            final(self).cursor == old(self).cursor,
            final(self).title == old(self).title,
            final(self).prompt == old(self).prompt,
    {
        self.active = false;
    }

    /// Character index of the cursor, computed by walking the text.
    fn cursor_char_index(&self, cs: &Vec<char>) -> (k: usize)
        requires
            self.cursor_ok(),
            cs@ == self.input@,
        ensures
            k == char_index(self.input@, self.cursor as nat),
            k <= cs@.len(),
    {
        let ghost target = char_index(self.input@, self.cursor as nat);
        proof {
            assert(0 <= target <= cs@.len() && utf8_len(cs@.take(target)) == self.cursor);
        }
        let n = cs.len();
        let mut k: usize = 0;
        let mut bytes: usize = 0;
        while bytes < self.cursor
            invariant
                n == cs@.len(),
                k <= target,
                0 <= target <= cs@.len(),
                utf8_len(cs@.take(target)) == self.cursor,
                bytes == utf8_len(cs@.take(k as int)),
                cs@ == self.input@,
            decreases target - k,
        {
            proof {
                if k == target {
                    assert(false);
                }
                lemma_utf8_len_take_step(cs@, k as int);
                lemma_utf8_len_prefix_bound(cs@.take(target), k + 1);
                assert(cs@.take(target).take(k + 1) =~= cs@.take(k + 1));
            }
            bytes = bytes + char_len_utf8(cs[k]);
            k = k + 1;
        }
        proof {
            if k < target {
                lemma_utf8_len_prefix_strict(cs@, k as int, target);
            }
        }
        k
    }

    /// Insert `c` at the cursor and move the cursor past it.
    pub fn insert_char(&mut self, c: char)
        requires
            old(self).cursor_ok(),
            utf8_len(old(self).input@) + 4 <= usize::MAX,
        ensures
            (final(self).input@, final(self).cursor as nat) == insert_char_spec(
                old(self).input@,
                old(self).cursor as nat,
                c,
            ),
            final(self).cursor_ok(),
            final(self).active == old(self).active,
            final(self).title == old(self).title,
            final(self).prompt == old(self).prompt,
    {
        let cs = chars_of(self.input.as_str());
        let k = self.cursor_char_index(&cs);
        let mut s = string_from_range(&cs, 0, k);
        push_char(&mut s, c);
        let rest = string_from_range(&cs, k, cs.len());
        s.append(rest.as_str());
        proof {
            assert(cs@.subrange(0, k as int) =~= cs@.take(k as int));
            assert(cs@.subrange(k as int, cs@.len() as int) =~= cs@.skip(k as int));
            lemma_utf8_len_prefix_bound(cs@, k as int);
        }
        let w = char_len_utf8(c);
        self.input = s;
        self.cursor = self.cursor + w;
        proof {
            let n = self.input@;
            assert(n.take(k + 1) =~= cs@.take(k as int).push(c));
            lemma_utf8_len_take_step(n, k as int);
            assert(n.take(k as int) =~= cs@.take(k as int));
        }
    }

    /// Delete the character before the cursor, if any.
    pub fn backspace(&mut self)
        requires
            old(self).cursor_ok(),
        ensures
            (final(self).input@, final(self).cursor as nat) == backspace_spec(
                old(self).input@,
                old(self).cursor as nat,
            ),
            final(self).cursor_ok(),
            final(self).active == old(self).active,
            final(self).title == old(self).title,
            final(self).prompt == old(self).prompt,
    {
        if self.cursor > 0 {
            let cs = chars_of(self.input.as_str());
            let k = self.cursor_char_index(&cs);
            proof {
                if k == 0 {
                    assert(cs@.take(0) =~= Seq::<char>::empty());
                }
            }
            let mut s = string_from_range(&cs, 0, k - 1);
            let rest = string_from_range(&cs, k, cs.len());
            s.append(rest.as_str());
            let mut prev: usize = 0;
            let mut j: usize = 0;
            while j < k - 1
                invariant
                    j <= k - 1,
                    k <= cs@.len(),
                    prev == utf8_len(cs@.take(j as int)),
                    utf8_len(cs@.take(k as int)) == old(self).cursor,
                decreases k - 1 - j,
            {
                proof {
                    lemma_utf8_len_take_step(cs@, j as int);
                    lemma_utf8_len_prefix_strict(cs@, j + 1, k as int);
                }
                prev = prev + char_len_utf8(cs[j]);
                j = j + 1;
            }
            self.input = s;
            self.cursor = prev;
            proof {
                let n = self.input@;
                assert(cs@.subrange(0, k - 1) =~= cs@.take(k - 1));
                assert(cs@.subrange(k as int, cs@.len() as int) =~= cs@.skip(k as int));
                assert(n.take(k - 1) =~= cs@.take(k - 1));
            }
        }
    }

    /// Close the dialog and hand out its input, leaving it empty.
    pub fn take_input(&mut self) -> (s: String)
        ensures
            s@ == old(self).input@,
            final(self).input@ == Seq::<char>::empty(),
            !final(self).active,
            final(self).title == old(self).title,
            final(self).prompt == old(self).prompt,
            final(self).cursor == old(self).cursor,
    {
        self.active = false;
        let s = self.input.clone();
        self.input = String::new();
        s
    }

    /// What the prompt line shows on a row of `width` cells: the prompt and a space,
    /// the input before the cursor (scrolled so that the cursor stays visible), the
    /// character under the cursor (a space at the end), and as much of the rest as fits.
    pub fn prompt_line(&self, width: u16) -> (r: (String, String, char, String))
        requires
            self.cursor_ok(),
            width > utf8_len(self.prompt@) + 2,
        ensures
            (r.0@, r.1@, r.2, r.3@) == prompt_line_spec(
                self.prompt@,
                self.input@,
                char_index(self.input@, self.cursor as nat),
                width as int,
            ),
    {
        let mut prompt_text = String::from_str(self.prompt.as_str());
        push_char(&mut prompt_text, ' ');
        proof {
            lemma_utf8_len_is_encoding_len(prompt_text@);
            lemma_utf8_len_concat(self.prompt@, seq![' ']);
            assert(self.prompt@ + seq![' '] =~= self.prompt@.push(' '));
            assert(seq![' '].drop_first() =~= Seq::<char>::empty());
            assert(seq![' '][0] == ' ');
            assert(char_width(' ') == 1);
            assert(utf8_len(Seq::<char>::empty()) == 0);
            assert(utf8_len(seq![' ']) == 1);
            assert(prompt_text@ == self.prompt@.push(' '));
            assert(utf8_len(prompt_text@) == utf8_len(self.prompt@) + 1);
        }
        let plen = prompt_text.as_str().len();
        let w = width as usize;
        let available: usize = if w > plen + 1 { w - plen - 1 } else { 0 };
        let cs = chars_of(self.input.as_str());
        let k = self.cursor_char_index(&cs);
        let scroll: usize = if k >= available { k - available + 1 } else { 0 };
        let before = string_from_range(&cs, scroll, k);
        let cur = if k < cs.len() { cs[k] } else { ' ' };
        proof {
            lemma_utf8_len_is_encoding_len(before@);
            lemma_utf8_len_concat(cs@.take(scroll as int), before@);
            assert(cs@.take(scroll as int) + before@ =~= cs@.take(k as int));
            assert(utf8_len(cs@.take(k as int)) == self.cursor);
        }
        let blen = before.as_str().len();
        let room: usize = if blen < available && available - blen > 1 { available - blen - 1 } else { 0 };
        let after = if k < cs.len() && cs.len() - k > 1 {
            let rest = cs.len() - (k + 1);
            let take = if room < rest { room } else { rest };
            let a = string_from_range(&cs, k + 1, k + 1 + take);
            assert(a@ =~= cs@.skip(k + 1).take(take as int));
            proof {
                if take == rest {
                    assert(cs@.skip(k + 1).take(take as int) =~= cs@.skip(k + 1));
                }
            }
            a
        } else {
            String::new()
        };
        (prompt_text, before, cur, after)
    }
}

/// The prompt line of a dialog with the cursor before character `k` of `input`, on a
/// row of `width` cells: (prompt and space, text before the cursor, character under the
/// cursor, text after it).
pub open spec fn prompt_line_spec(prompt: Seq<char>, input: Seq<char>, k: int, width: int) -> (
    Seq<char>,
    Seq<char>,
    char,
    Seq<char>,
) {
    let prompt_text = prompt.push(' ');
    let plen = utf8_len(prompt_text) as int;
    let available = if width > plen + 1 { width - plen - 1 } else { 0 };
    let scroll = if k >= available { k - available + 1 } else { 0 };
    let before = input.subrange(scroll, k);
    let cur = if k < input.len() { input[k] } else { ' ' };
    let room = if available > utf8_len(before) + 1 { available - utf8_len(before) - 1 } else { 0 };
    let rest = input.skip(k + 1);
    let after = if k + 1 < input.len() {
        if room < rest.len() { rest.take(room) } else { rest }
    } else {
        Seq::empty()
    };
    (prompt_text, before, cur, after)
}

/// Typing a character and deleting it again gives back the text and the cursor.
pub proof fn law_backspace_undoes_insert_char(input: Seq<char>, cursor: nat, c: char)
    requires
        is_boundary(input, cursor),
    ensures
        backspace_spec(insert_char_spec(input, cursor, c).0, insert_char_spec(input, cursor, c).1)
            == (input, cursor),
{
    let k = char_index(input, cursor);
    let n = input.take(k) + seq![c] + input.skip(k);
    let cur2 = cursor + char_width(c);
    assert(n.take(k + 1) =~= input.take(k).push(c));
    lemma_utf8_len_take_step(n, k);
    assert(n.take(k) =~= input.take(k));
    lemma_char_index_unique(n, cur2, k + 1);
    assert(n.take(k) + n.skip(k + 1) =~= input);
}

} // verus!
