//! Everything the app says back to you.
//!
//! One deck of cards that rise from the bottom of the window and sink back
//! out when they are done with. Three shapes:
//!
//! * a **toast** — says what happened, goes away on its own;
//! * an **ask** — a question with a real button, for anything that cannot be
//!   undone;
//! * a **prompt** — an ask with a line to type in.
//!
//! Asks and prompts dim the window behind them and take the keyboard, because
//! deleting a script should not be something you do by clicking past a banner.
//! The deck here is the bookkeeping: which cards there are, in what order,
//! and which are on their way out. When a card was born, and how far along
//! its rise or fall it is, is the drawing's business.

use vstd::prelude::*;

use crate::icons::Icon;

verus! {

/// How a card is coloured and marked.
#[derive(Clone, Copy, PartialEq, Eq, Debug, Structural)]
pub enum Tone {
    /// Something went as asked.
    Success,
    Info,
    Warn,
    Danger,
}

impl Tone {
    /// The mark a card of this tone carries.
    pub fn icon(self) -> (r: Icon)
        ensures
            r == (match self {
                Tone::Success => Icon::Check,
                Tone::Info => Icon::Info,
                Tone::Warn => Icon::Warning,
                Tone::Danger => Icon::Trash,
            }),
    {
        match self {
            Tone::Success => Icon::Check,
            Tone::Info => Icon::Info,
            Tone::Warn => Icon::Warning,
            Tone::Danger => Icon::Trash,
        }
    }
}

struct Prompt {
    hint: String,
    text: String,
    focused: bool,
}

enum Kind<A> {
    Toast,
    Ask { yes: String, action: A, prompt: Option<Prompt> },
}

struct Item<A> {
    id: u64,
    title: String,
    body: String,
    tone: Tone,
    kind: Kind<A>,
    /// Set the moment it is on its way out.
    dying: bool,
    /// When it was first shown, in milliseconds, once it has been.
    born: Option<u64>,
    /// When it started on its way out, once the deck has seen it go.
    since: Option<u64>,
}

/// A question on a card: its button, what saying yes does, and for a prompt
/// its hint and the text in its field.
pub ghost struct AskV<A> {
    pub yes: Seq<char>,
    pub action: A,
    pub prompt: Option<(Seq<char>, Seq<char>)>,
}

/// A card as the specifications see it; `ask` is `None` for a toast.
pub ghost struct CardV<A> {
    pub id: u64,
    pub title: Seq<char>,
    pub body: Seq<char>,
    pub tone: Tone,
    pub ask: Option<AskV<A>>,
    pub dying: bool,
    /// When it was first shown, in milliseconds, once it has been.
    pub born: Option<u64>,
    /// When it started on its way out, once the deck has seen it go.
    pub since: Option<u64>,
}

/// The deck: its cards, oldest first, and the id the next card gets.
pub ghost struct DeckV<A> {
    pub cards: Seq<CardV<A>>,
    pub next: u64,
}

spec fn kind_view<A>(k: Kind<A>) -> Option<AskV<A>> {
    match k {
        Kind::Toast => None,
        Kind::Ask { yes, action, prompt } => Some(
            AskV {
                yes: yes@,
                action,
                prompt: match prompt {
                    Some(p) => Some((p.hint@, p.text@)),
                    None => None,
                },
            },
        ),
    }
}

spec fn item_view<A>(i: Item<A>) -> CardV<A> {
    CardV {
        id: i.id,
        title: i.title@,
        body: i.body@,
        tone: i.tone,
        ask: kind_view(i.kind),
        dying: i.dying,
        born: i.born,
        since: i.since,
    }
}

impl<A> Item<A> {
    fn modal(&self) -> (r: bool)
        ensures
            r == item_view(*self).ask is Some,
    {
        match self.kind {
            Kind::Ask { .. } => true,
            Kind::Toast => false,
        }
    }
}

/// What the user did with an ask.
pub struct Answer<A> {
    pub action: A,
    /// What was typed, for a prompt.
    pub text: Option<String>,
}

pub struct Deck<A> {
    items: Vec<Item<A>>,
    next: u64,
}

impl<A> View for Deck<A> {
    type V = DeckV<A>;

    closed spec fn view(&self) -> DeckV<A> {
        DeckV { cards: self.items@.map_values(|i: Item<A>| item_view(i)), next: self.next }
    }
}

/// How many toasts are among the cards.
pub open spec fn toasts<A>(cs: Seq<CardV<A>>) -> nat
    decreases cs.len(),
{
    if cs.len() == 0 {
        0
    } else {
        toasts(cs.drop_last()) + if cs.last().ask is None {
            1nat
        } else {
            0nat
        }
    }
}

/// The asks among the cards, in order.
pub open spec fn asks<A>(cs: Seq<CardV<A>>) -> Seq<CardV<A>>
    decreases cs.len(),
{
    if cs.len() == 0 {
        seq![]
    } else if cs.last().ask is Some {
        asks(cs.drop_last()).push(cs.last())
    } else {
        asks(cs.drop_last())
    }
}

/// The oldest toast, from `i` on.
pub open spec fn first_toast<A>(cs: Seq<CardV<A>>, i: int) -> Option<int>
    decreases cs.len() - i,
{
    if i < 0 || i >= cs.len() {
        None
    } else if cs[i].ask is None {
        Some(i)
    } else {
        first_toast(cs, i + 1)
    }
}

/// The cards with the oldest toasts dropped until fewer than four are left,
/// making room for one more: toasts never pile past a screenful.
pub open spec fn capped<A>(cs: Seq<CardV<A>>) -> Seq<CardV<A>>
    decreases cs.len(),
{
    if toasts(cs) >= 4 {
        match first_toast(cs, 0) {
            Some(p) => if 0 <= p < cs.len() {
                capped(cs.remove(p))
            } else {
                cs
            },
            None => cs,
        }
    } else {
        cs
    }
}

/// The newest ask that is not already leaving.
pub open spec fn open_ask<A>(cs: Seq<CardV<A>>) -> Option<int>
    decreases cs.len(),
{
    if cs.len() == 0 {
        None
    } else if cs.last().ask is Some && !cs.last().dying {
        Some(cs.len() - 1)
    } else {
        open_ask(cs.drop_last())
    }
}

proof fn lemma_toasts_asks_append<A>(a: Seq<CardV<A>>, b: Seq<CardV<A>>)
    ensures
        toasts(a + b) == toasts(a) + toasts(b),
        asks(a + b) == asks(a) + asks(b),
    decreases b.len(),
{
    if b.len() == 0 {
        assert(a + b =~= a);
        assert(asks(a) + asks(b) =~= asks(a));
    } else {
        lemma_toasts_asks_append(a, b.drop_last());
        assert((a + b).drop_last() =~= a + b.drop_last());
        if b.last().ask is Some {
            assert(asks(a) + asks(b) =~= (asks(a) + asks(b.drop_last())).push(b.last()));
        }
    }
}

proof fn lemma_first_toast<A>(cs: Seq<CardV<A>>, i: int)
    requires
        0 <= i,
    ensures
        first_toast(cs, i) matches Some(p) ==> i <= p < cs.len() && cs[p].ask is None && forall|
            j: int,
        | i <= j < p ==> cs[j].ask is Some,
        first_toast(cs, i) is None ==> forall|j: int| i <= j < cs.len() ==> cs[j].ask is Some,
    decreases cs.len() - i,
{
    if i < cs.len() && cs[i].ask is Some {
        lemma_first_toast(cs, i + 1);
    }
}

proof fn lemma_no_toasts<A>(cs: Seq<CardV<A>>)
    requires
        forall|j: int| 0 <= j < cs.len() ==> cs[j].ask is Some,
    ensures
        toasts(cs) == 0,
        asks(cs) == cs,
    decreases cs.len(),
{
    if cs.len() > 0 {
        lemma_no_toasts(cs.drop_last());
        assert(cs.drop_last().push(cs.last()) =~= cs);
    }
}

/// Dropping the oldest toast takes one toast away and leaves the asks.
proof fn lemma_drop_first_toast<A>(cs: Seq<CardV<A>>, p: int)
    requires
        first_toast(cs, 0) == Some(p),
    ensures
        0 <= p < cs.len(),
        toasts(cs.remove(p)) + 1 == toasts(cs),
        asks(cs.remove(p)) == asks(cs),
{
    lemma_first_toast(cs, 0);
    let head = cs.take(p);
    let tail = cs.skip(p + 1);
    assert(cs =~= head + seq![cs[p]] + tail);
    assert(cs.remove(p) =~= head + tail);
    lemma_toasts_asks_append(head + seq![cs[p]], tail);
    lemma_toasts_asks_append(head, seq![cs[p]]);
    lemma_toasts_asks_append(head, tail);
    let one = seq![cs[p]];
    assert(one.drop_last() =~= Seq::<CardV<A>>::empty());
    assert(one.last() == cs[p]);
    assert(toasts(one.drop_last()) == 0);
    assert(asks(one.drop_last()) =~= Seq::<CardV<A>>::empty());
    assert(toasts(one) == 1);
    assert(asks(one) =~= Seq::<CardV<A>>::empty());
    assert(asks(head) + asks(one) =~= asks(head));
}

/// Capping the toasts leaves fewer than four of them, and every ask.
proof fn lemma_capped<A>(cs: Seq<CardV<A>>)
    ensures
        toasts(capped(cs)) < 4,
        asks(capped(cs)) == asks(cs),
    decreases cs.len(),
{
    if toasts(cs) >= 4 {
        lemma_first_toast(cs, 0);
        match first_toast(cs, 0) {
            Some(p) => {
                lemma_drop_first_toast(cs, p);
                lemma_capped(cs.remove(p));
            },
            None => {
                lemma_no_toasts(cs);
            },
        }
    }
}

/// The deck after a card of kind `ask` is added: room made among the
/// toasts, then the new card on top.
pub open spec fn pushed<A>(
    d: DeckV<A>,
    ask: Option<AskV<A>>,
    title: Seq<char>,
    body: Seq<char>,
    tone: Tone,
) -> DeckV<A> {
    DeckV {
        cards: capped(d.cards).push(
            CardV { id: d.next, title, body, tone, ask, dying: false, born: None, since: None },
        ),
        next: (d.next + 1) as u64,
    }
}

/// Toasts never pile past a screenful: whatever the deck held, after a card
/// is added it holds at most four toasts, and every ask it held is still
/// there, in order, with the new card's own if it is one.
pub proof fn law_toasts_capped<A>(
    d: DeckV<A>,
    ask: Option<AskV<A>>,
    title: Seq<char>,
    body: Seq<char>,
    tone: Tone,
)
    ensures
        toasts(pushed(d, ask, title, body, tone).cards) <= 4,
        asks(pushed(d, ask, title, body, tone).cards) == (if ask is Some {
            asks(d.cards).push(pushed(d, ask, title, body, tone).cards.last())
        } else {
            asks(d.cards)
        }),
{
    lemma_capped(d.cards);
    let c = capped(d.cards);
    let n = pushed(d, ask, title, body, tone).cards;
    assert(n.drop_last() =~= c);
}

/// A toast said lands on top with what it was given, and the cards under it
/// are the old ones with the oldest toasts dropped until three or fewer are
/// left; so at most four toasts stand, and every ask stays, in order.
pub proof fn law_say_lands_on_top<A>(d: DeckV<A>, title: Seq<char>, body: Seq<char>, tone: Tone)
    ensures
        ({
            let n = pushed(d, None, title, body, tone).cards;
            &&& n.len() > 0
            &&& n.last().ask is None
            &&& n.last().title == title && n.last().body == body && n.last().tone == tone
            &&& n.drop_last() == capped(d.cards)
            &&& toasts(n) <= 4
            &&& asks(n) == asks(d.cards)
        }),
{
    law_toasts_capped(d, None, title, body, tone);
    let n = pushed(d, None, title, body, tone).cards;
    assert(n.drop_last() =~= capped(d.cards));
}

/// A question asked is the one answered next: right after `ask` or `prompt`
/// the newest open question is the new card, holding the question it was
/// given, and taking it away leaves the old cards with the oldest toasts
/// dropped to make room. With `take_top`'s contract this gives back the
/// question's action, with what was typed, or the seed of a prompt, or no
/// text for a plain ask.
pub proof fn law_question_answered_next<A>(
    d: DeckV<A>,
    q: AskV<A>,
    title: Seq<char>,
    body: Seq<char>,
    tone: Tone,
)
    ensures
        ({
            let n = pushed(d, Some(q), title, body, tone).cards;
            &&& open_ask(n) == Some(n.len() - 1)
            &&& n[n.len() - 1].ask == Some(q)
            &&& n[n.len() - 1].tone == tone
            &&& n.remove(n.len() - 1) == capped(d.cards)
        }),
{
    let n = pushed(d, Some(q), title, body, tone).cards;
    assert(n.remove(n.len() - 1) =~= capped(d.cards));
}

proof fn lemma_open_ask<A>(cs: Seq<CardV<A>>)
    ensures
        open_ask(cs) matches Some(k) ==> 0 <= k < cs.len() && cs[k].ask is Some && !cs[k].dying,
    decreases cs.len(),
{
    if cs.len() > 0 && !(cs.last().ask is Some && !cs.last().dying) {
        lemma_open_ask(cs.drop_last());
    }
}

// ----------------------------------------------------------- the clock --

/// How long a toast stays up, in milliseconds.
pub const TOAST_MS: u64 = 3400;

/// How long a card takes to fall away once it is going, in milliseconds.
pub const FALL_MS: u64 = 220;

/// What the drawing of the deck saw happen to a card this frame.
pub enum DeckEvent {
    Nothing,
    /// The card's button was pressed.
    Confirm(u64),
    /// The card was sent away.
    Dismiss(u64),
}

/// A card that has finished falling away.
pub open spec fn fallen<A>(c: CardV<A>, now: u64) -> bool {
    &&& c.dying
    &&& c.since is Some
    &&& now >= c.since->0 + FALL_MS
}

/// A card a frame later: first seen now if it had not been; a toast past
/// its time starts on its way out; a card sent away is seen going.
pub open spec fn ticked<A>(c: CardV<A>, now: u64) -> CardV<A> {
    if c.ask is None && !c.dying && c.born is Some && now > c.born->0 + TOAST_MS {
        CardV { dying: true, since: Some(now), ..c }
    } else {
        CardV {
            born: Some(
                match c.born {
                    Some(b) => b,
                    None => now,
                },
            ),
            since: if c.dying {
                Some(
                    match c.since {
                        Some(t) => t,
                        None => now,
                    },
                )
            } else {
                c.since
            },
            ..c
        }
    }
}

/// The cards a frame later: the fallen ones gone, the rest ticked.
pub open spec fn settled<A>(cs: Seq<CardV<A>>, now: u64) -> Seq<CardV<A>>
    decreases cs.len(),
{
    if cs.len() == 0 {
        seq![]
    } else if fallen(cs.last(), now) {
        settled(cs.drop_last(), now)
    } else {
        settled(cs.drop_last(), now).push(ticked(cs.last(), now))
    }
}

/// The first card with id `id`.
pub open spec fn card_with<A>(cs: Seq<CardV<A>>, id: u64) -> Option<int>
    decreases cs.len(),
{
    if cs.len() == 0 {
        None
    } else {
        match card_with(cs.drop_last(), id) {
            Some(k) => Some(k),
            None => if cs.last().id == id {
                Some(cs.len() - 1)
            } else {
                None
            },
        }
    }
}

proof fn lemma_card_with<A>(cs: Seq<CardV<A>>, id: u64)
    ensures
        card_with(cs, id) matches Some(k) ==> 0 <= k < cs.len() && cs[k].id == id,
    decreases cs.len(),
{
    if cs.len() > 0 {
        lemma_card_with(cs.drop_last(), id);
    }
}

/// The first card with an id, found at place `n - 1` with none before it.
proof fn lemma_card_with_prefix<A>(cs: Seq<CardV<A>>, id: u64, n: int)
    requires
        0 < n <= cs.len(),
        cs[n - 1].id == id,
        card_with(cs.take(n - 1), id) is None,
    ensures
        card_with(cs, id) == Some(n - 1),
    decreases cs.len() - n,
{
    if n == cs.len() {
        assert(cs.drop_last() =~= cs.take(n - 1));
    } else {
        assert(cs.drop_last().take(n - 1) =~= cs.take(n - 1));
        lemma_card_with_prefix(cs.drop_last(), id, n);
    }
}

/// A frame of the deck at time `now`: the cards settle, then what the
/// drawing saw is acted on. Pressing a card's button takes it off and, for
/// a question, gives its action and the text typed in its field; sending a
/// card away starts it falling.
pub open spec fn stepped<A>(d: DeckV<A>, now: u64, ev: DeckEvent) -> (
    DeckV<A>,
    Option<(A, Option<Seq<char>>)>,
) {
    let cs = settled(d.cards, now);
    match ev {
        DeckEvent::Nothing => (DeckV { cards: cs, next: d.next }, None),
        DeckEvent::Confirm(id) => match card_with(cs, id) {
            Some(k) => (
                DeckV { cards: cs.remove(k), next: d.next },
                match cs[k].ask {
                    Some(q) => Some(
                        (
                            q.action,
                            match q.prompt {
                                Some((_, typed)) => Some(typed),
                                None => None,
                            },
                        ),
                    ),
                    None => None,
                },
            ),
            None => (DeckV { cards: cs, next: d.next }, None),
        },
        DeckEvent::Dismiss(id) => match card_with(cs, id) {
            Some(k) => (
                DeckV {
                    cards: cs.update(k, CardV { dying: true, since: Some(now), ..cs[k] }),
                    next: d.next,
                },
                None,
            ),
            None => (DeckV { cards: cs, next: d.next }, None),
        },
    }
}

impl<A> Default for Deck<A> {
    fn default() -> (r: Deck<A>)
        ensures
            r@.cards.len() == 0,
            r@.next == 1,
    {
        Deck { items: Vec::new(), next: 1 }
    }
}

impl<A> Deck<A> {
    fn toast_count(&self) -> (r: usize)
        ensures
            r == toasts(self@.cards),
    {
        let ghost cs = self@.cards;
        let mut n: usize = 0;
        let mut i: usize = 0;
        while i < self.items.len()
            invariant
                i <= self.items@.len(),
                cs == self@.cards,
                cs.len() == self.items@.len(),
                n == toasts(cs.take(i as int)),
                n <= i,
            decreases self.items@.len() - i,
        {
            proof {
                assert(cs.take(i + 1).drop_last() =~= cs.take(i as int));
                assert(cs[i as int] == item_view(self.items@[i as int]));
            }
            if !self.items[i].modal() {
                n = n + 1;
            }
            i = i + 1;
        }
        proof {
            assert(cs.take(i as int) =~= cs);
        }
        n
    }

    fn oldest_toast(&self) -> (r: Option<usize>)
        ensures
            r matches Some(p) ==> first_toast(self@.cards, 0) == Some(p as int),
            r is None ==> first_toast(self@.cards, 0) is None,
    {
        let ghost cs = self@.cards;
        let mut i: usize = 0;
        while i < self.items.len()
            invariant
                i <= self.items@.len(),
                cs == self@.cards,
                cs.len() == self.items@.len(),
                first_toast(cs, 0) == first_toast(cs, i as int),
            decreases self.items@.len() - i,
        {
            proof {
                assert(cs[i as int] == item_view(self.items@[i as int]));
            }
            if !self.items[i].modal() {
                return Some(i);
            }
            i = i + 1;
        }
        None
    }

    fn push(&mut self, kind: Kind<A>, title: &str, body: &str, tone: Tone)
        requires
            old(self)@.next < u64::MAX,
        ensures
            final(self)@ == pushed(old(self)@, kind_view(kind), title@, body@, tone),
    {
        let id = self.next;
        self.next = self.next + 1;
        // never let toasts pile past a screenful
        let ghost start = self@.cards;
        loop
            invariant
                capped(start) == capped(self@.cards),
                self.next == id + 1,
            ensures
                capped(start) == self@.cards,
                self.next == id + 1,
            decreases self.items@.len(),
        {
            if self.toast_count() < 4 {
                break;
            }
            proof {
                lemma_first_toast(self@.cards, 0);
            }
            match self.oldest_toast() {
                Some(pos) => {
                    let ghost before = self@.cards;
                    self.items.remove(pos);
                    proof {
                        assert(self@.cards =~= before.remove(pos as int));
                    }
                },
                None => {
                    proof {
                        lemma_no_toasts(self@.cards);
                    }
                    break;
                },
            }
        }
        let ghost before = self@.cards;
        self.items.push(
            Item {
                id,
                title: title.to_owned(),
                body: body.to_owned(),
                tone,
                kind,
                dying: false,
                born: None,
                since: None,
            },
        );
        proof {
            assert(self@.cards =~= before.push(self@.cards.last()));
        }
    }

    pub fn say(&mut self, title: &str, body: &str, tone: Tone)
        requires
            old(self)@.next < u64::MAX,
        ensures
            final(self)@ == pushed(old(self)@, None, title@, body@, tone),
    {
        self.push(Kind::Toast, title, body, tone);
    }

    pub fn ok(&mut self, title: &str, body: &str)
        requires
            old(self)@.next < u64::MAX,
        ensures
            final(self)@ == pushed(old(self)@, None, title@, body@, Tone::Success),
    {
        self.say(title, body, Tone::Success);
    }

    pub fn warn(&mut self, title: &str, body: &str)
        requires
            old(self)@.next < u64::MAX,
        ensures
            final(self)@ == pushed(old(self)@, None, title@, body@, Tone::Warn),
    {
        self.say(title, body, Tone::Warn);
    }

    /// A question with one real button. Nothing else in the window responds
    /// until it is answered.
    pub fn ask(&mut self, title: &str, body: &str, yes: &str, tone: Tone, action: A)
        requires
            old(self)@.next < u64::MAX,
        ensures
            final(self)@ == pushed(
                old(self)@,
                Some(AskV { yes: yes@, action, prompt: None }),
                title@,
                body@,
                tone,
            ),
    {
        self.push(Kind::Ask { yes: yes.to_owned(), action, prompt: None }, title, body, tone);
    }

    /// The same, with a line to type in. `seed` is what the field starts with.
    pub fn prompt(
        &mut self,
        title: &str,
        body: &str,
        hint: &str,
        seed: &str,
        yes: &str,
        action: A,
    )
        requires
            old(self)@.next < u64::MAX,
        ensures
            final(self)@ == pushed(
                old(self)@,
                Some(AskV { yes: yes@, action, prompt: Some((hint@, seed@)) }),
                title@,
                body@,
                Tone::Info,
            ),
    {
        self.push(
            Kind::Ask {
                yes: yes.to_owned(),
                action,
                prompt: Some(Prompt { hint: hint.to_owned(), text: seed.to_owned(), focused: false }),
            },
            title,
            body,
            Tone::Info,
        );
    }

    fn newest_open(&self) -> (r: Option<usize>)
        ensures
            r matches Some(k) ==> open_ask(self@.cards) == Some(k as int),
            r is None ==> open_ask(self@.cards) is None,
    {
        let ghost cs = self@.cards;
        let mut i: usize = self.items.len();
        proof {
            assert(cs.take(i as int) =~= cs);
        }
        while i > 0
            invariant
                i <= self.items@.len(),
                cs == self@.cards,
                cs.len() == self.items@.len(),
                open_ask(cs) == open_ask(cs.take(i as int)),
            decreases i,
        {
            proof {
                assert(cs.take(i as int).drop_last() =~= cs.take(i - 1));
                assert(cs[i - 1] == item_view(self.items@[i - 1]));
            }
            if self.items[i - 1].modal() && !self.items[i - 1].dying {
                return Some(i - 1);
            }
            i = i - 1;
        }
        None
    }

    /// The card a frame later, in machine arithmetic.
    fn tick(item: &mut Item<A>, now: u64)
        ensures
            item_view(*final(item)) == ticked(item_view(*old(item)), now),
    {
        let expired = match item.kind {
            Kind::Toast => !item.dying && match item.born {
                Some(b) => now as u128 > b as u128 + TOAST_MS as u128,
                None => false,
            },
            Kind::Ask { .. } => false,
        };
        if expired {
            item.dying = true;
            item.since = Some(now);
        } else {
            if item.born.is_none() {
                item.born = Some(now);
            }
            if item.dying && item.since.is_none() {
                item.since = Some(now);
            }
        }
    }

    /// Whether a card has finished falling away, in machine arithmetic.
    fn has_fallen(item: &Item<A>, now: u64) -> (r: bool)
        ensures
            r == fallen(item_view(*item), now),
    {
        item.dying && match item.since {
            Some(t) => now as u128 >= t as u128 + FALL_MS as u128,
            None => false,
        }
    }

    /// Where the card with id `id` is.
    fn place_of(&self, id: u64) -> (r: Option<usize>)
        ensures
            r matches Some(k) ==> card_with(self@.cards, id) == Some(k as int),
            r is None ==> card_with(self@.cards, id) is None,
    {
        let ghost cs = self@.cards;
        let mut i: usize = 0;
        proof {
            assert(cs.take(0) =~= Seq::<CardV<A>>::empty());
        }
        while i < self.items.len()
            invariant
                i <= self.items@.len(),
                cs == self@.cards,
                cs.len() == self.items@.len(),
                card_with(cs.take(i as int), id) is None,
            decreases self.items@.len() - i,
        {
            proof {
                assert(cs.take(i + 1).drop_last() =~= cs.take(i as int));
                assert(cs[i as int] == item_view(self.items@[i as int]));
            }
            if self.items[i].id == id {
                proof {
                    lemma_card_with_prefix(cs, id, i + 1);
                }
                return Some(i);
            }
            i = i + 1;
        }
        proof {
            assert(cs.take(i as int) =~= cs);
        }
        None
    }

    /// A frame of the deck at `now` milliseconds: toasts past their time
    /// start to fall, cards that have fallen leave, and what the drawing
    /// saw (a button pressed, a card sent away) is acted on. Gives the
    /// answer to a question whose button was pressed.
    pub fn step(&mut self, now: u64, ev: DeckEvent) -> (r: Option<Answer<A>>)
        ensures
            final(self)@ == stepped(old(self)@, now, ev).0,
            match r {
                Some(a) => stepped(old(self)@, now, ev).1 == Some(
                    (
                        a.action,
                        match a.text {
                            Some(t) => Some(t@),
                            None => None,
                        },
                    ),
                ),
                None => stepped(old(self)@, now, ev).1 is None,
            },
    {
        let ghost cs0 = self@.cards;
        let mut rest: Vec<Item<A>> = Vec::new();
        std::mem::swap(&mut rest, &mut self.items);
        let ghost rv = rest@.map_values(|i: Item<A>| item_view(i));
        proof {
            assert(rv == cs0);
            assert(self@.cards =~= Seq::<CardV<A>>::empty());
            assert(cs0.take(0) =~= Seq::<CardV<A>>::empty());
        }
        let mut j: usize = 0;
        let total: usize = rest.len();
        while rest.len() > 0
            invariant
                j + rest@.len() == cs0.len(),
                cs0.len() == total,
                rest@.map_values(|i: Item<A>| item_view(i)) == cs0.skip(j as int),
                self@.cards == settled(cs0.take(j as int), now),
                self@.next == old(self)@.next,
            decreases rest@.len(),
        {
            let ghost before = self@.cards;
            let ghost rv0 = rest@.map_values(|i: Item<A>| item_view(i));
            let ghost r0 = rest@;
            let mut item = rest.remove(0);
            proof {
                assert(rest@ =~= r0.drop_first());
                assert(rv0.drop_first() =~= cs0.skip(j + 1));
                assert(cs0[j as int] == item_view(item)) by {
                    assert(cs0.skip(j as int)[0] == cs0[j as int]);
                }
                assert(cs0.take(j + 1).drop_last() =~= cs0.take(j as int));
                assert(cs0.take(j + 1).last() == cs0[j as int]);
                assert(rest@.map_values(|i: Item<A>| item_view(i)) =~= cs0.skip(j + 1));
            }
            if !Self::has_fallen(&item, now) {
                Self::tick(&mut item, now);
                self.items.push(item);
                proof {
                    assert(self@.cards =~= before.push(ticked(cs0[j as int], now)));
                }
            }
            j = j + 1;
        }
        proof {
            assert(cs0.take(j as int) =~= cs0);
        }
        let ghost cs = self@.cards;
        match ev {
            DeckEvent::Nothing => None,
            DeckEvent::Confirm(id) => {
                proof {
                    lemma_card_with(cs, id);
                }
                match self.place_of(id) {
                    Some(k) => {
                        let item = self.items.remove(k);
                        proof {
                            assert(self@.cards =~= cs.remove(k as int));
                            assert(cs[k as int] == item_view(item));
                        }
                        match item.kind {
                            Kind::Ask { action, prompt, .. } => {
                                let t = match prompt {
                                    Some(q) => Some(q.text),
                                    None => None,
                                };
                                Some(Answer { action, text: t })
                            },
                            Kind::Toast => None,
                        }
                    },
                    None => None,
                }
            },
            DeckEvent::Dismiss(id) => {
                proof {
                    lemma_card_with(cs, id);
                }
                match self.place_of(id) {
                    Some(k) => {
                        let mut item = self.items.remove(k);
                        item.dying = true;
                        item.since = Some(now);
                        self.items.insert(k, item);
                        proof {
                            assert(self@.cards =~= cs.update(
                                k as int,
                                CardV { dying: true, since: Some(now), ..cs[k as int] },
                            ));
                        }
                        None
                    },
                    None => None,
                }
            },
        }
    }

    /// Whether a question is up and waiting.
    pub fn asking(&self) -> (r: bool)
        ensures
            r == open_ask(self@.cards) is Some,
    {
        self.newest_open().is_some()
    }

    /// Send the newest question away without answering it.
    pub fn dismiss_top(&mut self) -> (r: bool)
        ensures
            r == open_ask(old(self)@.cards) is Some,
            final(self)@ == (match open_ask(old(self)@.cards) {
                Some(k) => DeckV {
                    cards: old(self)@.cards.update(k, CardV { dying: true, ..old(self)@.cards[k] }),
                    next: old(self)@.next,
                },
                None => old(self)@,
            }),
    {
        proof {
            lemma_open_ask(self@.cards);
        }
        match self.newest_open() {
            Some(k) => {
                let ghost before = self@.cards;
                let mut item = self.items.remove(k);
                item.dying = true;
                self.items.insert(k, item);
                proof {
                    assert(self@.cards =~= before.update(
                        k as int,
                        CardV { dying: true, ..before[k as int] },
                    ));
                }
                true
            },
            None => false,
        }
    }

    /// Answer the newest question without drawing it — the headless tests use
    /// this to say yes to a confirmation.
    pub fn take_top(&mut self, text: Option<String>) -> (r: Option<Answer<A>>)
        ensures
            match open_ask(old(self)@.cards) {
                Some(k) => {
                    let q = old(self)@.cards[k].ask->0;
                    &&& final(self)@ == DeckV {
                        cards: old(self)@.cards.remove(k),
                        next: old(self)@.next,
                    }
                    &&& r matches Some(a) && a.action == q.action && (match text {
                        Some(t) => a.text matches Some(u) && u@ == t@,
                        None => match q.prompt {
                            Some((_, typed)) => a.text matches Some(u) && u@ == typed,
                            None => a.text is None,
                        },
                    })
                },
                None => final(self)@ == old(self)@ && r is None,
            },
    {
        proof {
            lemma_open_ask(self@.cards);
        }
        let pos = match self.newest_open() {
            Some(p) => p,
            None => {
                return None;
            },
        };
        let ghost before = self@.cards;
        let item = self.items.remove(pos);
        proof {
            assert(self@.cards =~= before.remove(pos as int));
            assert(before[pos as int] == item_view(item));
        }
        match item.kind {
            Kind::Ask { action, prompt, .. } => {
                let t = match text {
                    Some(t) => Some(t),
                    None => match prompt {
                        Some(q) => Some(q.text),
                        None => None,
                    },
                };
                Some(Answer { action, text: t })
            },
            Kind::Toast => None,
        }
    }
}

} // verus!
