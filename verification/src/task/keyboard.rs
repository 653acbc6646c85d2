//! The keyboard: scancodes from the interrupt to the task, and keys from scancodes.

use crossbeam_queue::ArrayQueue;
use pc_keyboard::layouts::Us104Key;
use pc_keyboard::{DecodedKey, Error, HandleControl, KeyEvent, PS2Keyboard, ScancodeSet1};
use vstd::prelude::*;

use crate::task::queue;

verus! {

/// How many scancodes can be waiting.
pub const SCANCODE_QUEUE_CAPACITY: usize = 100;

// ScancodeStream.

/// The scancodes that wait for the task, and whether it sleeps until the next.
pub struct ScancodeStream {
    queue: ArrayQueue<u64>,
    asleep: bool,
}

/// The state of [`ScancodeStream`].
#[verifier::ext_equal]
pub struct ScancodesModel {
    /// The scancodes, the oldest first.
    pub waiting: Seq<u8>,
    /// Whether the task sleeps.
    pub asleep: bool,
}

impl View for ScancodeStream {
    type V = ScancodesModel;

    closed spec fn view(&self) -> ScancodesModel {
        ScancodesModel {
            waiting: Seq::new(
                queue::items(self.queue).len(),
                |i: int| queue::items(self.queue)[i] as u8,
            ),
            asleep: self.asleep,
        }
    }
}

/// What became of a scancode.
#[derive(Debug, Clone, Copy, PartialEq, Eq, Structural)]
pub enum Added {
    /// It waits for the task, which is awake.
    Queued,
    /// It waits for the task, which is to be woken.
    Wake,
    /// The queue is full; it is lost.
    Dropped,
}

/// What adding a scancode does.
pub open spec fn adding(m: ScancodesModel, scancode: u8) -> (ScancodesModel, Added) {
    if m.waiting.len() >= SCANCODE_QUEUE_CAPACITY {
        (m, Added::Dropped)
    } else {
        (
            ScancodesModel { waiting: m.waiting.push(scancode), asleep: false },
            if m.asleep {
                Added::Wake
            } else {
                Added::Queued
            },
        )
    }
}

/// What asking for a scancode does: the oldest is taken, or the task sleeps.
pub open spec fn polling(m: ScancodesModel) -> (ScancodesModel, Option<u8>) {
    if m.waiting.len() > 0 {
        (ScancodesModel { waiting: m.waiting.remove(0), ..m }, Some(m.waiting[0]))
    } else {
        (ScancodesModel { asleep: true, ..m }, None)
    }
}

impl ScancodeStream {
    /// What holds of the scancodes between any two operations.
    pub closed spec fn ok(&self) -> bool {
        &&& queue::capacity(self.queue) == SCANCODE_QUEUE_CAPACITY
        &&& queue::items(self.queue).len() <= SCANCODE_QUEUE_CAPACITY
        &&& forall|i: int|
            0 <= i < queue::items(self.queue).len() ==> #[trigger] queue::items(self.queue)[i]
                <= 0xFF
    }

    /// No scancodes; the task has not asked yet.
    pub fn new() -> (s: ScancodeStream)
        ensures
            s.ok(),
            s@ == (ScancodesModel { waiting: Seq::empty(), asleep: false }),
    {
        let s = ScancodeStream { queue: queue::new_queue(SCANCODE_QUEUE_CAPACITY), asleep: false };
        assert(s@ =~= (ScancodesModel { waiting: Seq::empty(), asleep: false }));
        s
    }

    /// Adds a scancode, from the interrupt.
    pub fn add_scancode(&mut self, scancode: u8) -> (added: Added)
        requires
            old(self).ok(),
        ensures
            final(self).ok(),
            (final(self)@, added) == adding(old(self)@, scancode),
    {
        let ghost before = self@;
        if queue::push(&mut self.queue, scancode as u64) {
            let added: Added = if self.asleep {
                Added::Wake
            } else {
                Added::Queued
            };
            self.asleep = false;
            assert(self@ =~= adding(before, scancode).0);
            added
        } else {
            assert(self@ =~= before);
            Added::Dropped
        }
    }

    /// Takes the oldest scancode; if there is none the task is to sleep until it is woken.
    pub fn poll_next(&mut self) -> (scancode: Option<u8>)
        requires
            old(self).ok(),
        ensures
            final(self).ok(),
            (final(self)@, scancode) == polling(old(self)@),
    {
        let ghost before = self@;
        match queue::pop(&mut self.queue) {
            Some(item) => {
                assert(self@ =~= polling(before).0);
                Some(item as u8)
            },
            None => {
                self.asleep = true;
                assert(self@ =~= polling(before).0);
                None
            },
        }
    }
}

/// No wake is lost: a task that found no scancode is woken by the next.
pub proof fn sleeping_task_is_woken(m: ScancodesModel, scancode: u8)
    requires
        polling(m).1 is None,
    ensures
        adding(polling(m).0, scancode).1 == Added::Wake,
        polling(adding(polling(m).0, scancode).0).1 == Some(scancode),
{
}

/// Scancodes come out in the order in which they went in.
pub proof fn scancodes_keep_their_order(m: ScancodesModel, scancode: u8)
    requires
        0 < m.waiting.len() < SCANCODE_QUEUE_CAPACITY,
    ensures
        polling(adding(m, scancode).0).1 == polling(m).1,
        polling(adding(m, scancode).0).0.waiting == polling(m).0.waiting.push(scancode),
{
    assert(m.waiting.push(scancode).remove(0) =~= m.waiting.remove(0).push(scancode));
}

// Keys.

/// A key that was pressed.
pub enum Key {
    /// It stands for a character.
    Unicode(char),
    /// It stands for none; this is its name.
    Raw(String),
}

/// A key that was pressed, over sequences.
pub enum KeyView {
    Unicode(char),
    Raw(Seq<char>),
}

impl View for Key {
    type V = KeyView;

    open spec fn view(&self) -> KeyView {
        match *self {
            Key::Unicode(c) => KeyView::Unicode(c),
            Key::Raw(name) => KeyView::Raw(name@),
        }
    }
}

/// A key, if one was pressed, over sequences.
pub open spec fn key_view(k: Option<Key>) -> Option<KeyView> {
    match k {
        Some(k) => Some(k@),
        None => None,
    }
}

/// A decoder of scancodes: `pc_keyboard::PS2Keyboard`, whose parameters are bound by traits of
/// that crate.
#[verifier::external_body]
pub struct Decoder {
    keyboard: PS2Keyboard<Us104Key, ScancodeSet1>,
}

/// `pc_keyboard::KeyEvent`: a key went down or up.
#[verifier::external_type_specification]
#[verifier::external_body]
pub struct ExKeyEvent(pc_keyboard::KeyEvent);

/// `pc_keyboard::Error`: what is wrong with a scancode.
#[verifier::external_type_specification]
#[verifier::external_body]
pub struct ExKeyboardError(pc_keyboard::Error);

/// The scancodes that a decoder has been given since it was made.
pub uninterp spec fn given(d: Decoder) -> Seq<u8>;

/// The events that a decoder has processed since it was made.
pub uninterp spec fn processed(d: Decoder) -> Seq<KeyEvent>;

/// What the last of these scancodes completes, the ones before it having been given already.
pub uninterp spec fn event_in(scancodes: Seq<u8>) -> Result<Option<KeyEvent>, Error>;

/// The key that the last of these events stands for, the ones before it having been processed
/// already.
pub uninterp spec fn key_in(events: Seq<KeyEvent>) -> Option<KeyView>;

/// `pc_keyboard::PS2Keyboard::new` makes a decoder that has been given nothing and has processed
/// nothing: for scancode set 1, the US layout, and control keys without a meaning of their own.
#[verifier::external_body]
fn new_keyboard() -> (d: Decoder)
    ensures
        given(d) == Seq::<u8>::empty(),
        processed(d) == Seq::<KeyEvent>::empty(),
{
    Decoder { keyboard: PS2Keyboard::new(ScancodeSet1::new(), Us104Key, HandleControl::Ignore) }
}

/// `pc_keyboard::PS2Keyboard::add_byte` gives a decoder a scancode. The event that this completes,
/// if it completes one, depends on the scancodes given so far alone.
#[verifier::external_body]
fn give_byte(d: &mut Decoder, scancode: u8) -> (event: Result<Option<KeyEvent>, Error>)
    ensures
        given(*final(d)) == given(*old(d)).push(scancode),
        processed(*final(d)) == processed(*old(d)),
        event == event_in(given(*old(d)).push(scancode)),
{
    d.keyboard.add_byte(scancode)
}

/// `pc_keyboard::PS2Keyboard::process_keyevent` has a decoder process an event. The key that this
/// stands for, if it stands for one, depends on the events processed so far alone.
#[verifier::external_body]
fn process_event(d: &mut Decoder, event: KeyEvent) -> (key: Option<Key>)
    ensures
        given(*final(d)) == given(*old(d)),
        processed(*final(d)) == processed(*old(d)).push(event),
        key_view(key) == key_in(processed(*old(d)).push(event)),
{
    match d.keyboard.process_keyevent(event)? {
        DecodedKey::Unicode(c) => Some(Key::Unicode(c)),
        DecodedKey::RawKey(code) => Some(Key::Raw(format!("{:?}", code))),
    }
}

/// The state of a decoder.
#[verifier::ext_equal]
pub struct DecoderModel {
    /// The scancodes that it has been given.
    pub scancodes: Seq<u8>,
    /// The events that it has processed.
    pub events: Seq<KeyEvent>,
}

impl View for Decoder {
    type V = DecoderModel;

    closed spec fn view(&self) -> DecoderModel {
        DecoderModel { scancodes: given(*self), events: processed(*self) }
    }
}

/// What a scancode does: the event that it completes is processed, and gives the key. A scancode
/// that completes none, or stands for no key, gives nothing.
pub open spec fn decoded(m: DecoderModel, scancode: u8) -> (DecoderModel, Option<KeyView>) {
    let scancodes = m.scancodes.push(scancode);
    match event_in(scancodes) {
        Ok(Some(event)) => {
            let events = m.events.push(event);
            (DecoderModel { scancodes, events }, key_in(events))
        },
        _ => (DecoderModel { scancodes, ..m }, None),
    }
}

impl Decoder {
    /// A decoder that has been given nothing.
    pub fn new() -> (d: Decoder)
        ensures
            d@ == (DecoderModel { scancodes: Seq::empty(), events: Seq::empty() }),
    {
        new_keyboard()
    }

    /// The key that a scancode completes, if it completes one.
    pub fn add_byte(&mut self, scancode: u8) -> (key: Option<Key>)
        ensures
            (final(self)@, key_view(key)) == decoded(old(self)@, scancode),
    {
        match give_byte(self, scancode) {
            Ok(Some(event)) => process_event(self, event),
            _ => None,
        }
    }
}

/// What is shown of a key: its character, or its name.
pub open spec fn shown(key: Option<KeyView>) -> Seq<char> {
    match key {
        Some(KeyView::Unicode(c)) => seq![c],
        Some(KeyView::Raw(name)) => name,
        None => Seq::empty(),
    }
}

/// The text that shows a key.
pub fn text_of(key: Option<Key>) -> (text: String)
    ensures
        text@ == shown(key_view(key)),
{
    match key {
        Some(Key::Unicode(c)) => {
            let mut text: String = String::new();
            text.push(c);
            assert(text@ =~= seq![c]);
            text
        },
        Some(Key::Raw(name)) => name,
        None => String::new(),
    }
}

/// Shows the key that a scancode completes, if it completes one.
pub fn print_keypresses(d: &mut Decoder, scancode: u8) -> (text: String)
    ensures
        final(d)@ == decoded(old(d)@, scancode).0,
        text@ == shown(decoded(old(d)@, scancode).1),
{
    let key: Option<Key> = d.add_byte(scancode);
    text_of(key)
}

/// A scancode waits behind the others and wakes the task that sleeps, unless a hundred are
/// waiting already: then it is lost and nothing changes. Asking takes the oldest, or puts the
/// task to sleep.
pub proof fn scancodes_wait_in_line(m: ScancodesModel, scancode: u8)
    ensures
        m.waiting.len() < 100 ==> adding(m, scancode) == (
            ScancodesModel { waiting: m.waiting + seq![scancode], asleep: false },
            if m.asleep {
                Added::Wake
            } else {
                Added::Queued
            },
        ),
        m.waiting.len() >= 100 ==> adding(m, scancode) == (m, Added::Dropped),
        m.waiting.len() > 0 ==> polling(m) == (
            ScancodesModel {
                waiting: m.waiting.subrange(1, m.waiting.len() as int),
                asleep: m.asleep,
            },
            Some(m.waiting[0]),
        ),
        m.waiting.len() == 0 ==> polling(m) == (
            ScancodesModel { waiting: m.waiting, asleep: true },
            None::<u8>,
        ),
{
    assert(m.waiting.push(scancode) =~= m.waiting + seq![scancode]);
    if m.waiting.len() > 0 {
        assert(m.waiting.remove(0) =~= m.waiting.subrange(1, m.waiting.len() as int));
    }
}

} // verus!
