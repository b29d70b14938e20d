//! What a raw press becomes before the framework sees it.
//!
//! Hardware sends presses. What two of them close together mean is the
//! firmware's decision, so the presses arrive raw, and a caller that wants to
//! read something into them says so here.
//!
//! Two directions, deliberately not one:
//!
//! - A translation ([`Keys::translate`]): a key went down and this is what it
//!   means. The release of that same key follows its translation.
//! - An injection ([`Keys::due`]): a press with no key behind it, produced by
//!   a timer, delivered as a complete press and release in one frame.

use vstd::prelude::*;

use crate::device::{Board, Button};

verus! {

/// A key going down, and what was true when it did.
#[derive(Copy, Clone, Debug)]
pub struct Press {
    /// The button the hardware sent.
    pub button: Button,
    /// Milliseconds since the run started, the same reading the framework is
    /// given this frame.
    pub now: u32,
    /// The device this press came from.
    pub board: Board,
}

/// Reads meaning into raw presses.
///
/// Every method has a default that does nothing, so an implementation states
/// only what it changes. The default of the whole trait is [`Raw`].
pub trait Keys {
    /// What `press` means, or `None` to swallow it. By default, the button
    /// the hardware sent.
    fn translate(&mut self, press: Press) -> (meaning: Option<Button>)
        default_ensures
            meaning == Some(press.button),
    {
        Some(press.button)
    }

    /// A press that has come due, with no key behind it. Asked once a frame.
    /// By default, nothing ever comes due.
    fn due(&mut self, now: u32) -> (came: Option<Button>)
        default_ensures
            came is None,
    {
        None
    }

    /// Everything held is being let go of, and nothing pending should arrive.
    fn reset(&mut self) {
    }
}

/// Presses reach the framework as they arrive.
pub struct Raw;

impl Keys for Raw {

}

/// What a keypad hands the backend.
#[derive(Copy, Clone, Debug, PartialEq, Eq, Structural)]
pub enum Delivery {
    /// The framework sees this button go down.
    Press(Button),
    /// The framework sees this button come up.
    Release(Button),
}

/// The index of the first row of `table` for the physical key `button`.
pub open spec fn row_of(table: Seq<(Button, Button)>, button: Button, from: int) -> Option<int>
    decreases table.len() - from,
{
    if from < 0 || from >= table.len() {
        None
    } else if table[from].0 == button {
        Some(from)
    } else {
        row_of(table, button, from + 1)
    }
}

/// What letting go of `button` does to `table`, and what it delivers: the
/// meaning it went down as is released, and its row is gone.
pub open spec fn released(table: Seq<(Button, Button)>, button: Button) -> (Seq<(Button, Button)>, Seq<Delivery>) {
    match row_of(table, button, 0) {
        Some(i) => (table.remove(i), seq![Delivery::Release(table[i].1)]),
        None => (table, Seq::empty()),
    }
}

/// What pressing `button` does to a table `before`, when the keys read
/// `answer` into it, and what it delivers: the button's old meaning, if held,
/// is released first, and then the meaning read, if any, goes down and is
/// held.
pub open spec fn press_outcome(before: Seq<(Button, Button)>, button: Button, answer: Option<Button>) -> (
    Seq<(Button, Button)>,
    Seq<Delivery>,
) {
    let (rest, let_go) = released(before, button);
    match answer {
        Some(meaning) => (rest.push((button, meaning)), let_go.push(Delivery::Press(meaning))),
        None => (rest, let_go),
    }
}

/// Whether no physical key has two rows.
pub open spec fn distinct_keys(table: Seq<(Button, Button)>) -> bool {
    forall|i: int, j: int| 0 <= i < j < table.len() ==> (#[trigger] table[i]).0 != (#[trigger] table[j]).0
}

/// What a press that came due is delivered as: pressed and let go in one
/// frame, or nothing when nothing came due.
pub open spec fn came_due(due: Option<Button>) -> Seq<Delivery> {
    match due {
        Some(b) => seq![Delivery::Press(b), Delivery::Release(b)],
        None => Seq::empty(),
    }
}

/// What a press that came due is delivered as.
pub fn due_deliveries(due: Option<Button>) -> (d: Vec<Delivery>)
    ensures
        d@ == came_due(due),
{
    let mut out = Vec::new();
    match due {
        None => {},
        Some(button) => {
            out.push(Delivery::Press(button));
            out.push(Delivery::Release(button));
            assert(out@ =~= seq![Delivery::Press(button), Delivery::Release(button)]);
        },
    }
    out
}

/// Everything `table` holds, released in the order it went down.
pub open spec fn all_released(table: Seq<(Button, Button)>) -> Seq<Delivery> {
    table.map_values(|row: (Button, Button)| Delivery::Release(row.1))
}

/// The keys of a device, with a [`Keys`] reading them.
///
/// The bookkeeping is here rather than in the caller because it is the one
/// part that is easy to get wrong: a key translated on the way down has to be
/// released as what it became, or the button it turned into stays held.
pub struct Keypad<K: Keys> {
    keys: K,
    /// Physical key to what it was delivered as, for keys currently down. A
    /// swallowed press is not in here at all.
    down: Vec<(Button, Button)>,
    /// When the keys were asked what had come due, and what they answered.
    asked: Ghost<Seq<(u32, Option<Button>)>>,
    /// How many times the keys were told to forget what they held.
    resets: Ghost<nat>,
    /// Each press the keys were asked to translate, with their answer.
    told: Ghost<Seq<(Press, Option<Button>)>>,
}

impl<K: Keys> Keypad<K> {
    /// Physical key to delivered meaning, for every key held.
    pub closed spec fn held(self) -> Seq<(Button, Button)> {
        self.down@
    }

    /// Each time the keys were asked for a press that had come due, in
    /// order: the time they were asked at, and what they answered.
    pub closed spec fn due_answers(self) -> Seq<(u32, Option<Button>)> {
        self.asked@
    }

    /// How many times the keys were told to let go of everything and forget
    /// anything pending.
    pub closed spec fn resets(self) -> nat {
        self.resets@
    }

    /// Each press the keys were asked to translate, in order, with what they
    /// answered.
    pub closed spec fn translations(self) -> Seq<(Press, Option<Button>)> {
        self.told@
    }

    /// No physical key is held twice.
    pub open spec fn wf(self) -> bool {
        distinct_keys(self.held())
    }

    /// A keypad with nothing held, reading presses through `keys`.
    pub fn new(keys: K) -> (k: Keypad<K>)
        ensures
            k.held() == Seq::<(Button, Button)>::empty(),
            k.due_answers() == Seq::<(u32, Option<Button>)>::empty(),
            k.resets() == 0,
            k.translations() == Seq::<(Press, Option<Button>)>::empty(),
            k.wf(),
    {
        Keypad { keys, down: Vec::new(), asked: Ghost(Seq::empty()), resets: Ghost(0), told: Ghost(Seq::empty()) }
    }

    /// A key went down on `board`. Delivers whatever it turned out to mean.
    ///
    /// A second press with no release between them releases the old meaning
    /// before the new one is decided, so the table never holds two rows for
    /// one key.
    pub fn down(&mut self, button: Button, now: u32, board: Board) -> (d: Vec<Delivery>)
        requires
            old(self).wf(),
        ensures
            final(self).wf(),
            final(self).translations() == old(self).translations().push(
                (Press { button, now, board }, final(self).translations().last().1),
            ),
            final(self).due_answers() == old(self).due_answers(),
            final(self).resets() == old(self).resets(),
            final(self).held() == press_outcome(old(self).held(), button, final(self).translations().last().1).0,
            d@ == press_outcome(old(self).held(), button, final(self).translations().last().1).1,
    {
        let mut out = self.up(button);
        let press = Press { button, now, board };
        let meaning = self.keys.translate(press);
        self.told = Ghost(self.told@.push((press, meaning)));
        match meaning {
            None => out,
            Some(m) => {
                proof {
                    lemma_no_row_after_release(old(self).held(), button);
                }
                self.down.push((button, m));
                out.push(Delivery::Press(m));
                out
            },
        }
    }

    /// A key came up. Releases what it was delivered as, if it was delivered.
    pub fn up(&mut self, button: Button) -> (d: Vec<Delivery>)
        requires
            old(self).wf(),
        ensures
            final(self).wf(),
            final(self).held() == released(old(self).held(), button).0,
            d@ == released(old(self).held(), button).1,
            final(self).translations() == old(self).translations(),
            final(self).due_answers() == old(self).due_answers(),
            final(self).resets() == old(self).resets(),
            row_of(final(self).held(), button, 0) is None,
    {
        let mut i: usize = 0;
        while i < self.down.len()
            invariant
                i <= self.down@.len(),
                self.down@ == old(self).held(),
                self.translations() == old(self).translations(),
                self.due_answers() == old(self).due_answers(),
                self.resets() == old(self).resets(),
                distinct_keys(old(self).held()),
                row_of(self.down@, button, 0) == row_of(self.down@, button, i as int),
            decreases self.down@.len() - i,
        {
            if self.down[i].0 == button {
                let (_, meaning) = self.down.remove(i);
                proof {
                    lemma_remove_keeps_distinct(old(self).held(), i as int);
                    lemma_no_row_after_release(old(self).held(), button);
                }
                let mut out = Vec::new();
                out.push(Delivery::Release(meaning));
                return out;
            }
            i = i + 1;
        }
        proof {
            lemma_no_row_after_release(old(self).held(), button);
        }
        Vec::new()
    }

    /// Delivers anything that has come due, as a press and its release: the
    /// keys are asked once, and what they answer is what is delivered.
    pub fn due(&mut self, now: u32) -> (d: Vec<Delivery>)
        ensures
            final(self).held() == old(self).held(),
            final(self).translations() == old(self).translations(),
            final(self).due_answers() == old(self).due_answers().push((now, final(self).due_answers().last().1)),
            final(self).resets() == old(self).resets(),
            d@ == came_due(final(self).due_answers().last().1),
    {
        let answer = self.keys.due(now);
        self.asked = Ghost(self.asked@.push((now, answer)));
        due_deliveries(answer)
    }

    /// Releases everything still held, and tells the keys, once, to forget
    /// anything pending. For a board switch: the key under the finger is on a device
    /// that is no longer here.
    pub fn release_all(&mut self) -> (d: Vec<Delivery>)
        ensures
            final(self).held() == Seq::<(Button, Button)>::empty(),
            final(self).wf(),
            d@ == all_released(old(self).held()),
            final(self).translations() == old(self).translations(),
            final(self).due_answers() == old(self).due_answers(),
            final(self).resets() == old(self).resets() + 1,
    {
        let mut out: Vec<Delivery> = Vec::new();
        let mut i: usize = 0;
        while i < self.down.len()
            invariant
                i <= self.down@.len(),
                self.down@ == old(self).held(),
                self.translations() == old(self).translations(),
                self.due_answers() == old(self).due_answers(),
                self.resets() == old(self).resets(),
                out@ == all_released(self.down@.subrange(0, i as int)),
            decreases self.down@.len() - i,
        {
            out.push(Delivery::Release(self.down[i].1));
            proof {
                assert(all_released(self.down@.subrange(0, i + 1)) =~= all_released(
                    self.down@.subrange(0, i as int),
                ).push(Delivery::Release(self.down@[i as int].1)));
            }
            i = i + 1;
        }
        assert(self.down@.subrange(0, self.down@.len() as int) =~= self.down@);
        self.down = Vec::new();
        self.keys.reset();
        self.resets = Ghost(self.resets@ + 1);
        out
    }
}

/// After a key is let go of, it has no row left, and no key has two.
proof fn lemma_no_row_after_release(table: Seq<(Button, Button)>, button: Button)
    requires
        distinct_keys(table),
    ensures
        row_of(released(table, button).0, button, 0) is None,
        distinct_keys(released(table, button).0),
        forall|m: Button| distinct_keys(#[trigger] released(table, button).0.push((button, m))),
{
    lemma_row_of(table, button, 0);
    let rest = released(table, button).0;
    match row_of(table, button, 0) {
        Some(i) => {
            lemma_remove_keeps_distinct(table, i);
            assert forall|k: int| 0 <= k < rest.len() implies (#[trigger] rest[k]).0 != button by {
                if k < i {
                    assert(table[k].0 != table[i].0);
                } else {
                    assert(table[k + 1].0 != table[i].0);
                }
            }
        },
        None => {
            assert forall|k: int| 0 <= k < rest.len() implies (#[trigger] rest[k]).0 != button by {}
        },
    }
    lemma_row_of_none(rest, button, 0);
    assert forall|m: Button| distinct_keys(#[trigger] rest.push((button, m))) by {
        let t = rest.push((button, m));
        assert forall|i: int, j: int| 0 <= i < j < t.len() implies (#[trigger] t[i]).0 != (#[trigger] t[j]).0 by {
            if j == t.len() - 1 {
                assert(rest[i].0 != button);
            }
        }
    }
}

/// `row_of` finds the first row for the key, or there is none from `from` on.
proof fn lemma_row_of(table: Seq<(Button, Button)>, button: Button, from: int)
    requires
        0 <= from,
    ensures
        match row_of(table, button, from) {
            Some(i) => from <= i < table.len() && table[i].0 == button && forall|k: int|
                from <= k < i ==> (#[trigger] table[k]).0 != button,
            None => forall|k: int| from <= k < table.len() ==> (#[trigger] table[k]).0 != button,
        },
    decreases table.len() - from,
{
    if from < table.len() && table[from].0 != button {
        lemma_row_of(table, button, from + 1);
    }
}

/// A table with no row for a key answers that it has none.
proof fn lemma_row_of_none(table: Seq<(Button, Button)>, button: Button, from: int)
    requires
        0 <= from,
        forall|k: int| 0 <= k < table.len() ==> (#[trigger] table[k]).0 != button,
    ensures
        row_of(table, button, from) is None,
    decreases table.len() - from,
{
    if from < table.len() {
        lemma_row_of_none(table, button, from + 1);
    }
}

/// Removing a row keeps every key distinct.
proof fn lemma_remove_keeps_distinct(table: Seq<(Button, Button)>, i: int)
    requires
        distinct_keys(table),
        0 <= i < table.len(),
    ensures
        distinct_keys(table.remove(i)),
{
    let t = table.remove(i);
    assert forall|a: int, b: int| 0 <= a < b < t.len() implies (#[trigger] t[a]).0 != (#[trigger] t[b]).0 by {
        let a2 = if a < i { a } else { a + 1 };
        let b2 = if b < i { b } else { b + 1 };
        assert(t[a] == table[a2]);
        assert(t[b] == table[b2]);
    }
}

// -- laws -------------------------------------------------------------------

/// A translated press is released as what it became: a key that went down
/// as `meaning`, with nothing else of its held, comes up as `meaning`, and
/// leaves the table as it found it.
pub proof fn a_press_is_released_as_what_it_became(
    table: Seq<(Button, Button)>,
    button: Button,
    meaning: Button,
)
    requires
        distinct_keys(table),
        row_of(table, button, 0) is None,
    ensures
        released(table.push((button, meaning)), button).1 == seq![Delivery::Release(meaning)],
        released(table.push((button, meaning)), button).0 == table,
{
    lemma_row_of(table, button, 0);
    let t = table.push((button, meaning));
    assert forall|k: int| 0 <= k < table.len() implies (#[trigger] t[k]).0 != button by {
        assert(t[k] == table[k]);
    }
    lemma_first_row_at_end(t, button, 0);
    assert(t.remove(table.len() as int) =~= table);
}

proof fn lemma_first_row_at_end(t: Seq<(Button, Button)>, button: Button, from: int)
    requires
        0 <= from < t.len(),
        t.last().0 == button,
        forall|k: int| 0 <= k < t.len() - 1 ==> (#[trigger] t[k]).0 != button,
    ensures
        row_of(t, button, from) == Some(t.len() - 1),
    decreases t.len() - from,
{
    if from < t.len() - 1 {
        lemma_first_row_at_end(t, button, from + 1);
    }
}

/// A key that was never delivered, because its press was swallowed or it
/// was never pressed, releases nothing and changes nothing.
pub proof fn a_swallowed_press_releases_nothing(table: Seq<(Button, Button)>, button: Button)
    requires
        row_of(table, button, 0) is None,
    ensures
        released(table, button) == (table, Seq::<Delivery>::empty()),
{
}

} // verus!
