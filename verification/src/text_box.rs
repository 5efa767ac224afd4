use vstd::prelude::*;
use vstd::utf8::{encode_utf8, is_char_boundary, length_of_first_scalar};
use crate::ui::EventProcessResult;

verus! {

/// `String::remove` removes the character that starts at byte `idx` and
/// returns it; it panics unless `idx` is below the length and on a
/// character boundary. Claimed: the bytes of that character are cut out.
#[verifier::external_body]
fn string_remove(s: &mut String, idx: usize) -> (c: char)
    requires
        idx < encode_utf8(old(s)@).len(),
        is_char_boundary(encode_utf8(old(s)@), idx as int),
    ensures
        encode_utf8(final(s)@) == encode_utf8(old(s)@).take(idx as int) + encode_utf8(
            old(s)@,
        ).skip(idx + length_of_first_scalar(encode_utf8(old(s)@).skip(idx as int))),
{
    s.remove(idx)
}

/// `String::insert_str` inserts `t` at byte `idx`; it panics unless `idx`
/// is on a character boundary (the length included). Claimed: the bytes of
/// `t` are spliced in at `idx`.
#[verifier::external_body]
fn string_insert_str(s: &mut String, idx: usize, t: &str)
    requires
        is_char_boundary(encode_utf8(old(s)@), idx as int),
    ensures
        encode_utf8(final(s)@) == encode_utf8(old(s)@).take(idx as int) + encode_utf8(t@)
            + encode_utf8(old(s)@).skip(idx as int),
{
    s.insert_str(idx, t)
}

/// `String::push` appends `c`. Claimed: the text gets `c` at its end.
#[verifier::external_body]
fn string_push(s: &mut String, c: char)
    ensures
        final(s)@ == old(s)@.push(c),
{
    s.push(c)
}

/// A control character in the sense of Unicode (general category Cc):
/// U+0000 to U+001F and U+007F to U+009F.
pub open spec fn control_char(c: char) -> bool {
    c as u32 <= 0x1f || (0x7f <= c as u32 && c as u32 <= 0x9f)
}

/// Whether `c` is a control character.
pub fn is_control_char(c: char) -> (r: bool)
    ensures
        r == control_char(c),
{
    (c as u32) <= 0x1f || (0x7f <= (c as u32) && (c as u32) <= 0x9f)
}

/// The characters of `s` that are no control characters, in order.
pub open spec fn printable_chars(s: Seq<char>) -> Seq<char>
    decreases s.len(),
{
    if s.len() == 0 {
        Seq::empty()
    } else if control_char(s.last()) {
        printable_chars(s.drop_last())
    } else {
        printable_chars(s.drop_last()).push(s.last())
    }
}

/// A key press as a text box sees it: editing keys, or any other key with
/// the text it produces, if any.
pub enum TextKey {
    Backspace,
    ArrowLeft,
    ArrowRight,
    Enter,
    Other(Option<String>),
}

/// The editable text of a text box, the cursor as a byte position in it,
/// and the most bytes that typing may bring it to.
pub struct TextBox {
    text: String,
    cursor: usize,
    max_text_length: usize,
}

/// The text, as bytes of UTF-8, and the cursor after a key press; and
/// what the text box answers.
pub open spec fn key_outcome(
    bytes: Seq<u8>,
    cursor: int,
    max_len: int,
    key: TextKey,
    is_focused: bool,
    pressed: bool,
) -> (Seq<u8>, int, EventProcessResult) {
    if !(is_focused && pressed) {
        (bytes, cursor, EventProcessResult::Nothing)
    } else {
        match key {
            TextKey::Backspace => if cursor > 0 {
                (
                    bytes.take(cursor - 1) + bytes.skip(
                        cursor - 1 + length_of_first_scalar(bytes.skip(cursor - 1)),
                    ),
                    cursor - 1,
                    EventProcessResult::Sink,
                )
            } else {
                (bytes, cursor, EventProcessResult::Sink)
            },
            TextKey::ArrowLeft => (
                bytes,
                if cursor > 0 {
                    cursor - 1
                } else {
                    cursor
                },
                EventProcessResult::Sink,
            ),
            TextKey::ArrowRight => (
                bytes,
                if cursor < bytes.len() {
                    cursor + 1
                } else {
                    cursor
                },
                EventProcessResult::Sink,
            ),
            TextKey::Enter => (bytes, cursor, EventProcessResult::FocusDrop),
            TextKey::Other(text) => if bytes.len() >= max_len {
                (bytes, cursor, EventProcessResult::Sink)
            } else {
                match text {
                    Some(t) => {
                        let p = encode_utf8(printable_chars(t@));
                        if p.len() == 0 {
                            (bytes, cursor, EventProcessResult::Sink)
                        } else {
                            (
                                bytes.take(cursor) + p + bytes.skip(cursor),
                                cursor + p.len(),
                                EventProcessResult::Sink,
                            )
                        }
                    },
                    None => (bytes, cursor, EventProcessResult::Nothing),
                }
            },
        }
    }
}

/// Whether the key press changes the text: a backspace with bytes before
/// the cursor, or typed text with something printable while the text is
/// below its limit.
pub open spec fn key_edits(
    bytes: Seq<u8>,
    cursor: int,
    max_len: int,
    key: TextKey,
    is_focused: bool,
    pressed: bool,
) -> bool {
    &&& is_focused && pressed
    &&& match key {
        TextKey::Backspace => cursor > 0,
        TextKey::Other(Some(t)) => bytes.len() < max_len && encode_utf8(printable_chars(t@)).len()
            > 0,
        _ => false,
    }
}

/// Inputs on which a key press edits the text without failing: the text
/// fits in memory, a backspace must find a character starting just before
/// the cursor, and typed text must go in at a character boundary and leave
/// a text whose length fits in a `usize`.
pub open spec fn key_ok(
    bytes: Seq<u8>,
    cursor: int,
    max_len: int,
    key: TextKey,
    is_focused: bool,
    pressed: bool,
) -> bool {
    &&& bytes.len() <= usize::MAX
    &&& is_focused && pressed ==> match key {
        TextKey::Backspace => cursor > 0 ==> cursor - 1 < bytes.len() && is_char_boundary(
            bytes,
            cursor - 1,
        ),
        TextKey::Other(Some(t)) => bytes.len() < max_len ==> bytes.len() + encode_utf8(
            printable_chars(t@),
        ).len() <= usize::MAX && (encode_utf8(printable_chars(t@)).len() > 0 ==> is_char_boundary(
            bytes,
            cursor,
        )),
        _ => true,
    }
}

/// A key press keeps the cursor within the text: where the cursor stood at
/// most at the end of the text before, it does so after.
pub proof fn lemma_key_keeps_cursor_in_text(
    text: Seq<char>,
    cursor: int,
    max_len: int,
    key: TextKey,
    is_focused: bool,
    pressed: bool,
)
    requires
        key_ok(encode_utf8(text), cursor, max_len, key, is_focused, pressed),
        0 <= cursor <= encode_utf8(text).len(),
    ensures
        ({
            let out = key_outcome(encode_utf8(text), cursor, max_len, key, is_focused, pressed);
            0 <= out.1 <= out.0.len()
        }),
{
    let bytes = encode_utf8(text);
    if is_focused && pressed {
        match key {
            TextKey::Backspace => {
                if cursor > 0 {
                    let rest = bytes.skip(cursor - 1);
                    vstd::utf8::encode_utf8_valid_utf8(text);
                    vstd::utf8::valid_utf8_split(bytes, cursor - 1);
                    assert(rest =~= bytes.subrange(cursor - 1, bytes.len() as int));
                    assert(vstd::utf8::valid_first_scalar(rest));
                    assert(1 <= length_of_first_scalar(rest) <= rest.len());
                }
            },
            _ => {},
        }
    }
}

fn printable(t: &str) -> (p: String)
    ensures
        p@ == printable_chars(t@),
{
    let mut p = String::new();
    for c in it: t.chars()
        invariant
            it.seq() == t@,
            p@ == printable_chars(t@.take(it.index() as int)),
    {
        proof {
            assert(t@.take(it.index() as int + 1).drop_last() =~= t@.take(it.index() as int));
        }
        if !is_control_char(c) {
            string_push(&mut p, c);
        }
    }
    proof {
        assert(t@.take(t@.len() as int) =~= t@);
    }
    p
}

impl TextBox {
    /// An empty text box with the cursor at the start and no limit on
    /// typing.
    pub fn new() -> (b: TextBox)
        ensures
            b.text_view() == Seq::<char>::empty(),
            b.cursor_view() == 0,
            b.max_len_view() == usize::MAX,
    {
        TextBox { text: String::new(), cursor: 0, max_text_length: usize::MAX }
    }

    /// The text.
    pub closed spec fn text_view(&self) -> Seq<char> {
        self.text@
    }

    /// The cursor's byte position.
    pub closed spec fn cursor_view(&self) -> usize {
        self.cursor
    }

    /// The most bytes that typing may bring the text to.
    pub closed spec fn max_len_view(&self) -> usize {
        self.max_text_length
    }

    /// The text.
    pub fn text(&self) -> (t: &str)
        ensures
            t@ == self.text_view(),
    {
        self.text.as_str()
    }

    /// The cursor's byte position.
    pub fn cursor(&self) -> (c: usize)
        ensures
            c == self.cursor_view(),
    {
        self.cursor
    }

    /// The most bytes that typing may bring the text to.
    pub fn max_text_length(&self) -> (m: usize)
        ensures
            m == self.max_len_view(),
    {
        self.max_text_length
    }

    /// Sets the most bytes that typing may bring the text to.
    pub fn set_max_text_length(&mut self, max: usize)
        ensures
            final(self).max_len_view() == max,
            final(self).text_view() == old(self).text_view(),
            final(self).cursor_view() == old(self).cursor_view(),
    {
        self.max_text_length = max;
    }

    /// Handles a key press: with the focus, backspace deletes the character
    /// before the cursor, the arrows move the cursor by a byte, enter gives
    /// up the focus, and other keys insert their text without control
    /// characters at the cursor, unless the text has reached its limit.
    /// Returns the answer to the screen and whether the text changed.
    pub fn key_event(&mut self, key: &TextKey, is_focused: bool, pressed: bool) -> (res: (
        EventProcessResult,
        bool,
    ))
        requires
            key_ok(
                encode_utf8(old(self).text_view()),
                old(self).cursor_view() as int,
                old(self).max_len_view() as int,
                *key,
                is_focused,
                pressed,
            ),
        ensures
            ({
                let out = key_outcome(
                    encode_utf8(old(self).text_view()),
                    old(self).cursor_view() as int,
                    old(self).max_len_view() as int,
                    *key,
                    is_focused,
                    pressed,
                );
                &&& encode_utf8(final(self).text_view()) == out.0
                &&& final(self).cursor_view() == out.1
                &&& res.0 == out.2
                &&& res.1 == key_edits(
                    encode_utf8(old(self).text_view()),
                    old(self).cursor_view() as int,
                    old(self).max_len_view() as int,
                    *key,
                    is_focused,
                    pressed,
                )
                &&& final(self).max_len_view() == old(self).max_len_view()
            }),
    {
        if is_focused && pressed {
            match key {
                TextKey::Backspace => {
                    if self.cursor > 0 {
                        string_remove(&mut self.text, self.cursor - 1);
                        self.cursor = self.cursor - 1;
                        return (EventProcessResult::Sink, true);
                    }
                    (EventProcessResult::Sink, false)
                },
                TextKey::ArrowLeft => {
                    if self.cursor > 0 {
                        self.cursor = self.cursor - 1;
                    }
                    (EventProcessResult::Sink, false)
                },
                TextKey::ArrowRight => {
                    if self.cursor < self.text.as_str().len() {
                        self.cursor = self.cursor + 1;
                    }
                    (EventProcessResult::Sink, false)
                },
                TextKey::Enter => (EventProcessResult::FocusDrop, false),
                TextKey::Other(text) => {
                    if self.text.as_str().len() >= self.max_text_length {
                        return (EventProcessResult::Sink, false);
                    }
                    match text {
                        Some(t) => {
                            let p = printable(t.as_str());
                            let n = p.as_str().len();
                            if n > 0 {
                                assert(self.cursor <= encode_utf8(self.text@).len()) by {
                                    vstd::utf8::encode_utf8_valid_utf8(self.text@);
                                }
                                string_insert_str(&mut self.text, self.cursor, p.as_str());
                                self.cursor = self.cursor + n;
                                return (EventProcessResult::Sink, true);
                            }
                            (EventProcessResult::Sink, false)
                        },
                        None => (EventProcessResult::Nothing, false),
                    }
                },
            }
        } else {
            (EventProcessResult::Nothing, false)
        }
    }
}


/// A key that is not pressed, or pressed while the box does not have the
/// focus, changes nothing, whatever the key: the text and the cursor stay,
/// the answer is `Nothing`, so the event goes on to the next element.
pub proof fn lemma_unfocused_box_ignores_keys(
    bytes: Seq<u8>,
    cursor: int,
    max_len: int,
    key: TextKey,
    is_focused: bool,
    pressed: bool,
)
    requires
        !is_focused || !pressed,
    ensures
        key_outcome(bytes, cursor, max_len, key, is_focused, pressed) == (
            bytes,
            cursor,
            EventProcessResult::Nothing,
        ),
        !key_edits(bytes, cursor, max_len, key, is_focused, pressed),
{
}

} // verus!
