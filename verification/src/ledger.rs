//! Spaced-repetition ledger: users, and each user's study state card by card.
//!
//! A card's box was once kept in the field `box` and is now kept in
//! `box_canonical`. A ledger may hold either or both. The canonical field
//! wins where both are there; the older one is read, and never written again.

use vstd::prelude::*;
use crate::settings::text_view;

verus! {

/// The study state of one card.
#[derive(Clone, Debug, PartialEq, Eq)]
pub struct SpacedRepetitionCardState {
    /// The box as older versions wrote it.
    pub legacy_box: Option<i64>,
    /// The box as it is written now.
    pub box_canonical: Option<i64>,
    pub attempts: i64,
    pub last_result: Option<String>,
    pub last_reviewed_at: Option<String>,
}

/// What a card state holds.
pub struct CardStateView {
    pub legacy_box: Option<i64>,
    pub box_canonical: Option<i64>,
    pub attempts: i64,
    pub last_result: Option<Seq<char>>,
    pub last_reviewed_at: Option<Seq<char>>,
}

impl CardStateView {
    /// The card's box: the canonical field where it is there, else the older
    /// one.
    pub open spec fn canonical_box(self) -> Option<i64> {
        if self.box_canonical is Some {
            self.box_canonical
        } else {
            self.legacy_box
        }
    }

    /// The state as it is held in memory after loading: the canonical field
    /// holds the card's box, the older field is as it was read.
    pub open spec fn reconciled(self) -> CardStateView {
        CardStateView { box_canonical: self.canonical_box(), ..self }
    }

    /// The state as it is written: the canonical field holds the card's box,
    /// the older field is gone.
    pub open spec fn persisted(self) -> CardStateView {
        CardStateView { box_canonical: self.canonical_box(), legacy_box: None, ..self }
    }
}

impl View for SpacedRepetitionCardState {
    type V = CardStateView;

    open spec fn view(&self) -> CardStateView {
        CardStateView {
            legacy_box: self.legacy_box,
            box_canonical: self.box_canonical,
            attempts: self.attempts,
            last_result: text_view(self.last_result),
            last_reviewed_at: text_view(self.last_reviewed_at),
        }
    }
}

impl Default for SpacedRepetitionCardState {
    /// A card that was never studied.
    fn default() -> (state: SpacedRepetitionCardState)
        ensures
            state@ == (CardStateView {
                legacy_box: None,
                box_canonical: None,
                attempts: 0,
                last_result: None,
                last_reviewed_at: None,
            }),
    {
        SpacedRepetitionCardState {
            legacy_box: None,
            box_canonical: None,
            attempts: 0,
            last_result: None,
            last_reviewed_at: None,
        }
    }
}

impl SpacedRepetitionCardState {
    /// The card's box.
    pub fn canonical_box(&self) -> (in_box: Option<i64>)
        ensures
            in_box == self@.canonical_box(),
    {
        match self.box_canonical {
            Some(canonical) => Some(canonical),
            None => self.legacy_box,
        }
    }

    /// The state for use in memory after loading.
    pub fn reconciled(self) -> (state: SpacedRepetitionCardState)
        ensures
            state@ == self@.reconciled(),
    {
        let in_box = self.canonical_box();
        SpacedRepetitionCardState { box_canonical: in_box, ..self }
    }

    /// The state as it goes to disk.
    pub fn persisted(self) -> (state: SpacedRepetitionCardState)
        ensures
            state@ == self@.persisted(),
    {
        let in_box = self.canonical_box();
        SpacedRepetitionCardState { box_canonical: in_box, legacy_box: None, ..self }
    }
}

/// Reconciling changes nothing of what a card's box is.
pub proof fn lemma_reconciled_keeps_box(state: CardStateView)
    ensures
        state.reconciled().canonical_box() == state.canonical_box(),
        state.reconciled().legacy_box == state.legacy_box,
        state.reconciled().reconciled() == state.reconciled(),
{
}

/// What is written holds the card's box in the canonical field alone, and
/// reads back as it was written, however often it is loaded and saved.
pub proof fn lemma_persisted_is_canonical(state: CardStateView)
    ensures
        state.persisted().box_canonical == state.canonical_box(),
        state.persisted().legacy_box is None,
        state.reconciled().persisted() == state.persisted(),
        state.persisted().reconciled() == state.persisted(),
        state.persisted().persisted() == state.persisted(),
{
}

/// The study state of one card, under the card's id.
#[derive(Clone, Debug, PartialEq, Eq)]
pub struct CardEntry {
    pub card_id: String,
    pub state: SpacedRepetitionCardState,
}

/// What a card entry holds.
pub struct CardEntryView {
    pub card_id: Seq<char>,
    pub state: CardStateView,
}

impl View for CardEntry {
    type V = CardEntryView;

    open spec fn view(&self) -> CardEntryView {
        CardEntryView { card_id: self.card_id@, state: self.state@ }
    }
}

/// What a list of card entries holds.
pub open spec fn card_views(cards: Seq<CardEntry>) -> Seq<CardEntryView> {
    cards.map_values(|c: CardEntry| c@)
}

/// The study state of one user: the cards by id, each id at most once.
#[derive(Clone, Debug, PartialEq, Eq)]
pub struct SpacedRepetitionUserState {
    pub card_states: Vec<CardEntry>,
    pub last_loaded_at: Option<String>,
}

/// What a user's state holds.
pub struct UserStateView {
    pub card_states: Seq<CardEntryView>,
    pub last_loaded_at: Option<Seq<char>>,
}

impl CardEntryView {
    /// The entry with its card reconciled.
    pub open spec fn reconciled(self) -> CardEntryView {
        CardEntryView { state: self.state.reconciled(), ..self }
    }

    /// The entry with its card as it is written.
    pub open spec fn persisted(self) -> CardEntryView {
        CardEntryView { state: self.state.persisted(), ..self }
    }
}

impl UserStateView {
    /// No card id stands twice.
    pub open spec fn well_formed(self) -> bool {
        forall|i: int, j: int|
            0 <= i < j < self.card_states.len() ==> (#[trigger] self.card_states[i]).card_id
                != (#[trigger] self.card_states[j]).card_id
    }

    /// The state with every card reconciled.
    pub open spec fn reconciled(self) -> UserStateView {
        UserStateView {
            card_states: self.card_states.map_values(|c: CardEntryView| c.reconciled()),
            ..self
        }
    }

    /// The state with every card as it is written.
    pub open spec fn persisted(self) -> UserStateView {
        UserStateView {
            card_states: self.card_states.map_values(|c: CardEntryView| c.persisted()),
            ..self
        }
    }
}

impl View for SpacedRepetitionUserState {
    type V = UserStateView;

    open spec fn view(&self) -> UserStateView {
        UserStateView {
            card_states: card_views(self.card_states@),
            last_loaded_at: text_view(self.last_loaded_at),
        }
    }
}

impl SpacedRepetitionUserState {
    /// The state for use in memory after loading.
    pub fn reconciled(self) -> (state: SpacedRepetitionUserState)
        ensures
            state@ == self@.reconciled(),
    {
        let ghost before = card_views(self.card_states@);
        let mut cards: Vec<CardEntry> = Vec::new();
        for entry in it: self.card_states
            invariant
                card_views(it.seq()) == before,
                cards.len() == it.index(),
                forall|j: int|
                    0 <= j < cards.len() ==> (#[trigger] cards@[j])@ == before[j].reconciled(),
        {
            cards.push(CardEntry { card_id: entry.card_id, state: entry.state.reconciled() });
        }
        let state = SpacedRepetitionUserState {
            card_states: cards,
            last_loaded_at: self.last_loaded_at,
        };
        assert(state@.card_states == self@.reconciled().card_states);
        state
    }

    /// The state as it goes to disk.
    pub fn persisted(self) -> (state: SpacedRepetitionUserState)
        ensures
            state@ == self@.persisted(),
    {
        let ghost before = card_views(self.card_states@);
        let mut cards: Vec<CardEntry> = Vec::new();
        for entry in it: self.card_states
            invariant
                card_views(it.seq()) == before,
                cards.len() == it.index(),
                forall|j: int|
                    0 <= j < cards.len() ==> (#[trigger] cards@[j])@ == before[j].persisted(),
        {
            cards.push(CardEntry { card_id: entry.card_id, state: entry.state.persisted() });
        }
        let state = SpacedRepetitionUserState {
            card_states: cards,
            last_loaded_at: self.last_loaded_at,
        };
        assert(state@.card_states == self@.persisted().card_states);
        state
    }
}

/// One user of the ledger.
#[derive(Clone, Debug, PartialEq, Eq)]
pub struct SpacedRepetitionUser {
    pub id: String,
    pub name: String,
    /// When the user was created, as a timestamp in text.
    pub created_at: String,
}

/// What a user record holds.
pub struct UserView {
    pub id: Seq<char>,
    pub name: Seq<char>,
    pub created_at: Seq<char>,
}

impl View for SpacedRepetitionUser {
    type V = UserView;

    open spec fn view(&self) -> UserView {
        UserView { id: self.id@, name: self.name@, created_at: self.created_at@ }
    }
}

/// The study state of one user, under the user's id.
#[derive(Clone, Debug, PartialEq, Eq)]
pub struct UserStateEntry {
    pub user_id: String,
    pub state: SpacedRepetitionUserState,
}

/// What a user state entry holds.
pub struct UserStateEntryView {
    pub user_id: Seq<char>,
    pub state: UserStateView,
}

impl UserStateEntryView {
    /// The entry with every card reconciled.
    pub open spec fn reconciled(self) -> UserStateEntryView {
        UserStateEntryView { state: self.state.reconciled(), ..self }
    }

    /// The entry with every card as it is written.
    pub open spec fn persisted(self) -> UserStateEntryView {
        UserStateEntryView { state: self.state.persisted(), ..self }
    }
}

impl View for UserStateEntry {
    type V = UserStateEntryView;

    open spec fn view(&self) -> UserStateEntryView {
        UserStateEntryView { user_id: self.user_id@, state: self.state@ }
    }
}

/// The ledger: the users in their order, and the study state of users by id,
/// each id at most once.
#[derive(Clone, Debug, PartialEq, Eq)]
pub struct SpacedRepetitionStorage {
    pub users: Vec<SpacedRepetitionUser>,
    pub user_state_by_id: Vec<UserStateEntry>,
    pub last_active_user_id: Option<String>,
}

/// What a ledger holds.
pub struct StorageView {
    pub users: Seq<UserView>,
    pub user_state_by_id: Seq<UserStateEntryView>,
    pub last_active_user_id: Option<Seq<char>>,
}

impl StorageView {
    /// No user id stands twice among the states, and every state is well
    /// formed.
    pub open spec fn well_formed(self) -> bool {
        &&& forall|i: int, j: int|
            0 <= i < j < self.user_state_by_id.len() ==> (
            #[trigger] self.user_state_by_id[i]).user_id != (
            #[trigger] self.user_state_by_id[j]).user_id
        &&& forall|i: int|
            0 <= i < self.user_state_by_id.len() ==> (
            #[trigger] self.user_state_by_id[i]).state.well_formed()
    }

    /// The ledger has no user, no state and no active user.
    pub open spec fn is_empty(self) -> bool {
        &&& self.users.len() == 0
        &&& self.user_state_by_id.len() == 0
        &&& self.last_active_user_id is None
    }

    /// The ledger with every card reconciled.
    pub open spec fn reconciled(self) -> StorageView {
        StorageView {
            user_state_by_id: self.user_state_by_id.map_values(
                |e: UserStateEntryView| e.reconciled(),
            ),
            ..self
        }
    }

    /// The ledger with every card as it is written.
    pub open spec fn persisted(self) -> StorageView {
        StorageView {
            user_state_by_id: self.user_state_by_id.map_values(
                |e: UserStateEntryView| e.persisted(),
            ),
            ..self
        }
    }

    /// No card of the ledger holds the older field.
    pub open spec fn canonical_only(self) -> bool {
        forall|i: int, j: int|
            0 <= i < self.user_state_by_id.len() && 0 <= j
                < self.user_state_by_id[i].state.card_states.len()
                ==> (
            #[trigger] self.user_state_by_id[i].state.card_states[j]).state.legacy_box is None
    }
}

impl View for SpacedRepetitionStorage {
    type V = StorageView;

    open spec fn view(&self) -> StorageView {
        StorageView {
            users: self.users@.map_values(|u: SpacedRepetitionUser| u@),
            user_state_by_id: self.user_state_by_id@.map_values(|e: UserStateEntry| e@),
            last_active_user_id: text_view(self.last_active_user_id),
        }
    }
}

impl Default for SpacedRepetitionStorage {
    /// The ledger before anyone has used it.
    fn default() -> (ledger: SpacedRepetitionStorage)
        ensures
            ledger@.is_empty(),
            ledger@.well_formed(),
    {
        SpacedRepetitionStorage {
            users: Vec::new(),
            user_state_by_id: Vec::new(),
            last_active_user_id: None,
        }
    }
}

impl SpacedRepetitionStorage {
    /// The ledger for use in memory after loading: every card's canonical
    /// field holds the card's box.
    pub fn reconciled(self) -> (ledger: SpacedRepetitionStorage)
        ensures
            ledger@ == self@.reconciled(),
            ledger@.well_formed() == self@.well_formed(),
    {
        proof {
            lemma_ledger_forms(self@);
        }
        let ghost before = self.user_state_by_id@.map_values(|e: UserStateEntry| e@);
        let mut states: Vec<UserStateEntry> = Vec::new();
        for entry in it: self.user_state_by_id
            invariant
                it.seq().map_values(|e: UserStateEntry| e@) == before,
                states.len() == it.index(),
                forall|j: int|
                    0 <= j < states.len() ==> (#[trigger] states@[j])@ == before[j].reconciled(),
        {
            states.push(UserStateEntry { user_id: entry.user_id, state: entry.state.reconciled() });
        }
        let ledger = SpacedRepetitionStorage {
            users: self.users,
            user_state_by_id: states,
            last_active_user_id: self.last_active_user_id,
        };
        assert(ledger@.user_state_by_id == self@.reconciled().user_state_by_id);
        ledger
    }

    /// The ledger as it goes to disk: every card's canonical field holds the
    /// card's box, and no card holds the older field.
    pub fn persisted(self) -> (ledger: SpacedRepetitionStorage)
        ensures
            ledger@ == self@.persisted(),
            ledger@.well_formed() == self@.well_formed(),
            ledger@.canonical_only(),
    {
        proof {
            lemma_ledger_forms(self@);
        }
        let ghost before = self.user_state_by_id@.map_values(|e: UserStateEntry| e@);
        let mut states: Vec<UserStateEntry> = Vec::new();
        for entry in it: self.user_state_by_id
            invariant
                it.seq().map_values(|e: UserStateEntry| e@) == before,
                states.len() == it.index(),
                forall|j: int|
                    0 <= j < states.len() ==> (#[trigger] states@[j])@ == before[j].persisted(),
        {
            states.push(UserStateEntry { user_id: entry.user_id, state: entry.state.persisted() });
        }
        let ledger = SpacedRepetitionStorage {
            users: self.users,
            user_state_by_id: states,
            last_active_user_id: self.last_active_user_id,
        };
        assert(ledger@.user_state_by_id == self@.persisted().user_state_by_id);
        ledger
    }
}

/// Two ledgers hold the same ids in the same places.
spec fn same_ids(first: StorageView, second: StorageView) -> bool {
    &&& first.user_state_by_id.len() == second.user_state_by_id.len()
    &&& forall|i: int|
        0 <= i < first.user_state_by_id.len() ==> {
            let a = #[trigger] first.user_state_by_id[i];
            let b = second.user_state_by_id[i];
            &&& a.user_id == b.user_id
            &&& a.state.card_states.len() == b.state.card_states.len()
            &&& forall|j: int|
                0 <= j < a.state.card_states.len() ==> (#[trigger] a.state.card_states[j]).card_id
                    == b.state.card_states[j].card_id
        }
}

proof fn lemma_same_ids_same_form(first: StorageView, second: StorageView)
    requires
        same_ids(first, second),
        first.well_formed(),
    ensures
        second.well_formed(),
{
    assert forall|i: int, j: int| 0 <= i < j < second.user_state_by_id.len() implies (
    #[trigger] second.user_state_by_id[i]).user_id != (
    #[trigger] second.user_state_by_id[j]).user_id by {
        assert(first.user_state_by_id[i].user_id == second.user_state_by_id[i].user_id);
        assert(first.user_state_by_id[j].user_id == second.user_state_by_id[j].user_id);
    }
    assert forall|i: int| 0 <= i < second.user_state_by_id.len() implies (
    #[trigger] second.user_state_by_id[i]).state.well_formed() by {
        let before = first.user_state_by_id[i].state;
        let after = second.user_state_by_id[i].state;
        assert(before.well_formed());
        assert forall|a: int, b: int| 0 <= a < b < after.card_states.len() implies (
        #[trigger] after.card_states[a]).card_id != (#[trigger] after.card_states[b]).card_id by {
            assert(before.card_states[a].card_id == after.card_states[a].card_id);
            assert(before.card_states[b].card_id == after.card_states[b].card_id);
        }
    }
}

/// Reconciling and writing change no id, so they keep a ledger well formed;
/// and what is written holds no older field.
pub proof fn lemma_ledger_forms(ledger: StorageView)
    ensures
        ledger.reconciled().well_formed() == ledger.well_formed(),
        ledger.persisted().well_formed() == ledger.well_formed(),
        ledger.persisted().canonical_only(),
{
    let reconciled = ledger.reconciled();
    let persisted = ledger.persisted();
    assert(same_ids(ledger, reconciled) && same_ids(reconciled, ledger));
    assert(same_ids(ledger, persisted) && same_ids(persisted, ledger));
    if ledger.well_formed() {
        lemma_same_ids_same_form(ledger, reconciled);
        lemma_same_ids_same_form(ledger, persisted);
    }
    if reconciled.well_formed() {
        lemma_same_ids_same_form(reconciled, ledger);
    }
    if persisted.well_formed() {
        lemma_same_ids_same_form(persisted, ledger);
    }
}

/// A ledger that is loaded and then saved is written as if it were saved as
/// it was read; and what was written once is written the same way again.
pub proof fn lemma_ledger_migrates(ledger: StorageView)
    ensures
        ledger.reconciled().persisted() == ledger.persisted(),
        ledger.persisted().reconciled() == ledger.persisted(),
        ledger.persisted().persisted() == ledger.persisted(),
{
    let p = ledger.persisted();
    assert forall|i: int| 0 <= i < ledger.user_state_by_id.len() implies {
        &&& (#[trigger] ledger.user_state_by_id[i]).reconciled().persisted()
            == ledger.user_state_by_id[i].persisted()
        &&& ledger.user_state_by_id[i].persisted().reconciled()
            == ledger.user_state_by_id[i].persisted()
        &&& ledger.user_state_by_id[i].persisted().persisted()
            == ledger.user_state_by_id[i].persisted()
    } by {
        let e = ledger.user_state_by_id[i];
        assert forall|j: int| 0 <= j < e.state.card_states.len() implies {
            &&& (#[trigger] e.state.card_states[j]).reconciled().persisted()
                == e.state.card_states[j].persisted()
            &&& e.state.card_states[j].persisted().reconciled()
                == e.state.card_states[j].persisted()
            &&& e.state.card_states[j].persisted().persisted()
                == e.state.card_states[j].persisted()
        } by {
            lemma_persisted_is_canonical(e.state.card_states[j].state);
        }
        assert(e.state.reconciled().persisted().card_states == e.state.persisted().card_states);
        assert(e.state.persisted().reconciled().card_states == e.state.persisted().card_states);
        assert(e.state.persisted().persisted().card_states == e.state.persisted().card_states);
    }
    assert(ledger.reconciled().persisted().user_state_by_id == p.user_state_by_id);
    assert(p.reconciled().user_state_by_id == p.user_state_by_id);
    assert(p.persisted().user_state_by_id == p.user_state_by_id);
}

} // verus!
