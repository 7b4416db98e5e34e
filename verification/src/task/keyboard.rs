//! The keyboard task's decisions: scancodes decoded by the pc_keyboard
//! crate, and what the console does for each key.
use pc_keyboard::{layouts, DecodedKey, HandleControl, KeyCode, PS2Keyboard, ScancodeSet1};
use vstd::prelude::*;

verus! {

/// A future that is pending once and then ready.
pub struct YieldNow {
    yielded: bool,
}

impl YieldNow {
    pub closed spec fn has_yielded(&self) -> bool {
        self.yielded
    }

    /// Polls the future: ready when it yielded before; otherwise it yields
    /// now and the caller wakes the task and reports it pending.
    pub fn poll_ready(&mut self) -> (ready: bool)
        ensures
            ready == old(self).has_yielded(),
            final(self).has_yielded(),
    {
        if self.yielded {
            true
        } else {
            self.yielded = true;
            false
        }
    }
}

/// A future that lets the other tasks run once.
pub fn yield_now() -> (r: YieldNow)
    ensures
        !r.has_yielded(),
{
    YieldNow { yielded: false }
}

/// The keys the console reacts to.
#[derive(Debug, Clone, Copy, PartialEq, Eq)]
pub enum RawKey {
    PageUp,
    ArrowUp,
    PageDown,
    ArrowDown,
    Other,
}

/// A key as the keyboard decoder reports it.
#[derive(Debug, Clone, Copy, PartialEq, Eq)]
pub enum Key {
    Raw(RawKey),
    Unicode(char),
}

/// What the console does for a key.
#[derive(Debug, Clone, Copy, PartialEq, Eq)]
pub enum KeyAction {
    ScrollUp,
    ScrollDown,
    Print(char),
    Nothing,
}

/// The action for a key.
pub open spec fn key_action_spec(key: Key) -> KeyAction {
    match key {
        Key::Raw(RawKey::PageUp) | Key::Raw(RawKey::ArrowUp) => KeyAction::ScrollUp,
        Key::Raw(RawKey::PageDown) | Key::Raw(RawKey::ArrowDown) => KeyAction::ScrollDown,
        Key::Raw(RawKey::Other) => KeyAction::Nothing,
        Key::Unicode(c) => KeyAction::Print(c),
    }
}

/// Page Up and the up arrow scroll the console back, Page Down and the
/// down arrow scroll it forward, a character is printed, and other keys do
/// nothing.
pub fn key_action(key: Key) -> (r: KeyAction)
    ensures
        r == key_action_spec(key),
{
    match key {
        Key::Raw(raw) => match raw {
            RawKey::PageUp | RawKey::ArrowUp => KeyAction::ScrollUp,
            RawKey::PageDown | RawKey::ArrowDown => KeyAction::ScrollDown,
            _ => KeyAction::Nothing,
        },
        Key::Unicode(character) => KeyAction::Print(character),
    }
}

/// The action for what the decoder made of a scancode: nothing until a
/// key is complete.
pub open spec fn decoded_action_spec(key: Option<Key>) -> KeyAction {
    match key {
        Some(k) => key_action_spec(k),
        None => KeyAction::Nothing,
    }
}

/// The action for what the decoder made of a scancode.
pub fn decoded_action(key: Option<Key>) -> (r: KeyAction)
    ensures
        r == decoded_action_spec(key),
{
    match key {
        Some(k) => key_action(k),
        None => KeyAction::Nothing,
    }
}

/// The pc_keyboard decoder for scancode set 1 with the US 104-key layout,
/// control keys not mapped.
#[verifier::external_body]
struct KeyDecoder {
    kb: PS2Keyboard<layouts::Us104Key, ScancodeSet1>,
}

/// The keyboard: the decoder and the scancodes fed to it since it was
/// built.
pub struct Keyboard {
    decoder: KeyDecoder,
    fed: Ghost<Seq<u8>>,
}

/// The key, if any, that the pc_keyboard decoder (scancode set 1, US
/// 104-key layout, control keys not mapped), built afresh and fed the bytes
/// `fed` in order, completes with the last of them.
pub uninterp spec fn decoded_key(fed: Seq<u8>) -> Option<Key>;

/// `PS2Keyboard::new` of pc_keyboard, with scancode set 1, the US 104-key
/// layout and `HandleControl::Ignore`.  Nothing is stated of the decoder
/// itself; the keyboard records that it was fed nothing yet.
#[verifier::external_body]
fn ps2_keyboard_new() -> (r: Keyboard)
    ensures
        r.fed@ == Seq::<u8>::empty(),
{
    Keyboard {
        decoder: KeyDecoder { kb: PS2Keyboard::new(ScancodeSet1::new(), layouts::Us104Key, HandleControl::Ignore) },
        fed: Ghost(Seq::empty()),
    }
}

/// `PS2Keyboard::add_byte` of pc_keyboard, then, for a completed key event,
/// `PS2Keyboard::process_keyevent`, with the decoded key converted to a
/// `Key`: the four scrolling keys by name, every other raw key as `Other`; a
/// decoding error gives `None`.  The decoder is a deterministic state
/// machine over the bytes fed since it was built, so the result is named
/// over that history.  From a fresh decoder, the prefix 0xE0 completes no
/// key, and 0xE0 followed by 0x48, 0x49, 0x50 or 0x51 completes the up
/// arrow, Page Up, the down arrow or Page Down (scancode set 1's extended
/// make codes, which the US layout passes on as raw keys whatever the
/// modifiers).
#[verifier::external_body]
fn decode_byte(kb: &mut Keyboard, byte: u8) -> (r: Option<Key>)
    ensures
        final(kb).fed@ == old(kb).fed@.push(byte),
        r == decoded_key(final(kb).fed@),
        old(kb).fed@ == Seq::<u8>::empty() && byte == 0xE0 ==> r == None::<Key>,
        old(kb).fed@ == seq![0xE0u8] && byte == 0x48 ==> r == Some(Key::Raw(RawKey::ArrowUp)),
        old(kb).fed@ == seq![0xE0u8] && byte == 0x49 ==> r == Some(Key::Raw(RawKey::PageUp)),
        old(kb).fed@ == seq![0xE0u8] && byte == 0x50 ==> r == Some(Key::Raw(RawKey::ArrowDown)),
        old(kb).fed@ == seq![0xE0u8] && byte == 0x51 ==> r == Some(Key::Raw(RawKey::PageDown)),
{
    kb.fed = Ghost(kb.fed@.push(byte));
    let key = match kb.decoder.kb.add_byte(byte) {
        Ok(Some(ev)) => kb.decoder.kb.process_keyevent(ev)?,
        _ => return None,
    };
    match key {
        DecodedKey::RawKey(KeyCode::PageUp) => Some(Key::Raw(RawKey::PageUp)),
        DecodedKey::RawKey(KeyCode::ArrowUp) => Some(Key::Raw(RawKey::ArrowUp)),
        DecodedKey::RawKey(KeyCode::PageDown) => Some(Key::Raw(RawKey::PageDown)),
        DecodedKey::RawKey(KeyCode::ArrowDown) => Some(Key::Raw(RawKey::ArrowDown)),
        DecodedKey::RawKey(_) => Some(Key::Raw(RawKey::Other)),
        DecodedKey::Unicode(c) => Some(Key::Unicode(c)),
    }
}

impl Keyboard {
    /// The scancodes fed to the keyboard since it was built, in order.
    pub closed spec fn fed(&self) -> Seq<u8> {
        self.fed@
    }

    /// A keyboard whose decoder was fed nothing yet.
    pub fn new() -> (r: Self)
        ensures
            r.fed() == Seq::<u8>::empty(),
    {
        ps2_keyboard_new()
    }
}

/// Feeds one scancode read from the data port to the decoder, and returns
/// the key it completed, if any, with the console's action for it.  On a
/// fresh keyboard, the up arrow and Page Up (0xE0 0x48, 0xE0 0x49) scroll
/// the console back, the down arrow and Page Down (0xE0 0x50, 0xE0 0x51)
/// scroll it forward, and the 0xE0 prefix alone does nothing.
pub fn scancode_action(kb: &mut Keyboard, scancode: u8) -> (r: (Option<Key>, KeyAction))
    ensures
        final(kb).fed() == old(kb).fed().push(scancode),
        r.0 == decoded_key(old(kb).fed().push(scancode)),
        r.1 == decoded_action_spec(r.0),
        old(kb).fed() == Seq::<u8>::empty() && scancode == 0xE0 ==> r == (None::<Key>, KeyAction::Nothing),
        old(kb).fed() == seq![0xE0u8] && scancode == 0x48 ==> r == (Some(Key::Raw(RawKey::ArrowUp)), KeyAction::ScrollUp),
        old(kb).fed() == seq![0xE0u8] && scancode == 0x49 ==> r == (Some(Key::Raw(RawKey::PageUp)), KeyAction::ScrollUp),
        old(kb).fed() == seq![0xE0u8] && scancode == 0x50 ==> r == (Some(Key::Raw(RawKey::ArrowDown)), KeyAction::ScrollDown),
        old(kb).fed() == seq![0xE0u8] && scancode == 0x51 ==> r == (Some(Key::Raw(RawKey::PageDown)), KeyAction::ScrollDown),
{
    let key = decode_byte(kb, scancode);
    (key, decoded_action(key))
}

} // verus!
