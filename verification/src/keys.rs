//! The keys that are held down, and what a key does over an event.

use vstd::prelude::*;
use byte_set::ByteSet;

verus! {

#[verifier::external_type_specification]
#[verifier::external_body]
pub struct ExByteSet(ByteSet);

/// The bytes that a byte set holds.
pub uninterp spec fn held_bytes(s: ByteSet) -> Set<u8>;

/// `ByteSet::new`: the set without bytes.
#[verifier::external_body]
fn empty_set() -> (r: ByteSet)
    ensures
        held_bytes(r) == Set::<u8>::empty(),
{
    ByteSet::new()
}

/// `ByteSet::contains`: whether the set holds the byte.
#[verifier::external_body]
fn set_contains(s: &ByteSet, byte: u8) -> (r: bool)
    ensures
        r == held_bytes(*s).contains(byte),
{
    s.contains(byte)
}

/// `ByteSet::insert`: the set holds the byte afterwards, and all it held.
#[verifier::external_body]
fn set_insert(s: &mut ByteSet, byte: u8)
    ensures
        held_bytes(*final(s)) == held_bytes(*old(s)).insert(byte),
{
    s.insert(byte)
}

/// `ByteSet::remove`: the set holds all it held but the byte.
#[verifier::external_body]
fn set_remove(s: &mut ByteSet, byte: u8)
    ensures
        held_bytes(*final(s)) == held_bytes(*old(s)).remove(byte),
{
    s.remove(byte)
}

/// What happened to a key.
#[derive(Debug, Copy, Clone, PartialEq, Eq, Structural)]
pub enum KeyEvent {
    /// The key went down.
    Press,
    /// The key came up.
    Release,
    /// Something that leaves the key as it is.
    Other,
}

/// What a key does, seen over one event.
#[derive(Debug, Copy, Clone, PartialEq, Eq, Structural)]
pub enum KeyState {
    /// It was up and is down now.
    Pressed,
    /// It was down and is up now.
    Released,
    /// It was up and still is.
    Up,
    /// It was down and still is.
    Down,
}

/// The keys that are held down. Of a key code only the low eight bits count.
#[derive(Debug, Copy, Clone)]
pub struct Keys {
    keys: ByteSet,
}

impl View for Keys {
    type V = Set<u8>;

    closed spec fn view(&self) -> Set<u8> {
        held_bytes(self.keys)
    }
}

impl Default for Keys {
    fn default() -> (r: Self)
        ensures
            r@ == Set::<u8>::empty(),
    {
        Keys { keys: empty_set() }
    }
}

/// The keys held after an event on the key `key`.
pub open spec fn keys_after(held: Set<u8>, ev: KeyEvent, key: u8) -> Set<u8> {
    match ev {
        KeyEvent::Press => held.insert(key),
        KeyEvent::Release => held.remove(key),
        KeyEvent::Other => held,
    }
}

/// What a key does that was `old` before an event and is `new` after it.
pub open spec fn key_state(old: bool, new: bool) -> KeyState {
    if old {
        if new {
            KeyState::Down
        } else {
            KeyState::Released
        }
    } else {
        if new {
            KeyState::Pressed
        } else {
            KeyState::Up
        }
    }
}

impl Keys {
    /// Takes note of an event on the key `key` and says what the key did.
    pub fn update(&mut self, ev: KeyEvent, key: u32) -> (r: KeyState)
        ensures
            final(self)@ == keys_after(old(self)@, ev, key as u8),
            r == key_state(old(self)@.contains(key as u8), final(self)@.contains(key as u8)),
    {
        let key: u8 = #[verifier::truncate] (key as u8);
        let old: bool = set_contains(&self.keys, key);
        match ev {
            KeyEvent::Press => set_insert(&mut self.keys, key),
            KeyEvent::Release => set_remove(&mut self.keys, key),
            KeyEvent::Other => {},
        }
        let new: bool = set_contains(&self.keys, key);
        if old {
            if new {
                KeyState::Down
            } else {
                KeyState::Released
            }
        } else {
            if new {
                KeyState::Pressed
            } else {
                KeyState::Up
            }
        }
    }

    /// Whether the key `key` is held down.
    pub fn pressed(&self, key: u32) -> (r: bool)
        ensures
            r == self@.contains(key as u8),
    {
        set_contains(&self.keys, #[verifier::truncate] (key as u8))
    }
}

/// A key that is pressed is held, one that is released is not, and each
/// tells so once: a second press of a key that is held finds it down.
pub proof fn lemma_key_states(held: Set<u8>, key: u8)
    ensures
        keys_after(held, KeyEvent::Press, key).contains(key),
        !keys_after(held, KeyEvent::Release, key).contains(key),
        key_state(held.contains(key), keys_after(held, KeyEvent::Press, key).contains(key)) == (
        if held.contains(key) {
            KeyState::Down
        } else {
            KeyState::Pressed
        }),
        key_state(held.contains(key), keys_after(held, KeyEvent::Release, key).contains(key)) == (
        if held.contains(key) {
            KeyState::Released
        } else {
            KeyState::Up
        }),
        forall|other: u8|
            other != key ==> (keys_after(held, KeyEvent::Press, key).contains(other)
                == held.contains(other)) && (keys_after(held, KeyEvent::Release, key).contains(
                other,
            ) == held.contains(other)),
{
}

} // verus!
