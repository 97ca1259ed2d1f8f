//! State store: what loading a state file yields, and what saving a state
//! does to its file.
//!
//! The store decides; the caller reads and writes. A file that was read comes
//! in as a [`FileRead`], and what is to be done with the file goes out as a
//! [`SavePlan`]. Settings and ledger differ on purpose: settings that do not
//! parse are an error, a ledger that does not parse counts as none; empty
//! settings are kept as no file, an empty ledger is written like any other.

use vstd::prelude::*;
use vstd::string::StringExecFns;
use crate::error::{ErrorKind, VaultError};
use crate::ledger::{
    lemma_ledger_forms, lemma_ledger_migrates, SpacedRepetitionStorage, StorageView,
};
use crate::settings::{text_view, AppSettings, AppSettingsView, SettingsField};

verus! {

/// The state files, each with its domain.
#[derive(Clone, Copy, Debug, PartialEq, Eq, Structural)]
pub enum StateFile {
    Settings,
    SpacedRepetition,
}

/// The name that a state file has in the application's data directory.
pub open spec fn state_file_name_of(file: StateFile) -> Seq<char> {
    match file {
        StateFile::Settings => "settings.json"@,
        StateFile::SpacedRepetition => "spaced_repetition.json"@,
    }
}

/// The name that a state file has in the application's data directory.
pub fn state_file_name(file: StateFile) -> (name: String)
    ensures
        name@ == state_file_name_of(file),
{
    match file {
        StateFile::Settings => String::from_str("settings.json"),
        StateFile::SpacedRepetition => String::from_str("spaced_repetition.json"),
    }
}

/// What reading a state file gave.
#[derive(Clone, Debug, PartialEq, Eq)]
pub enum FileRead<T> {
    /// There is no file.
    Missing,
    /// The file holds this state.
    Parsed(T),
    /// The file does not hold a state; the text says why.
    Invalid(String),
}

/// What a read of a state file holds.
pub enum FileReadView<V> {
    Missing,
    Parsed(V),
    Invalid(Seq<char>),
}

impl<T: View> View for FileRead<T> {
    type V = FileReadView<T::V>;

    open spec fn view(&self) -> FileReadView<T::V> {
        match *self {
            FileRead::Missing => FileReadView::Missing,
            FileRead::Parsed(state) => FileReadView::Parsed(state@),
            FileRead::Invalid(reason) => FileReadView::Invalid(reason@),
        }
    }
}

/// What is to be done with a state file.
#[derive(Clone, Debug, PartialEq, Eq)]
pub enum SavePlan<T> {
    /// Delete the file if it is there; write nothing.
    Remove,
    /// Create the file's directory if it is missing, and replace the file's
    /// contents with this state.
    Write(T),
}

impl<T: View> SavePlan<T> {
    /// What the file holds once the plan is carried out: the state that was
    /// written, or nothing where there is no file.
    pub open spec fn stored(self) -> Option<T::V> {
        match self {
            SavePlan::Remove => None,
            SavePlan::Write(state) => Some(state@),
        }
    }
}

/// What a read gives of a file that holds `stored`: a file that was written
/// is read as it was written, and no file is read as missing.
pub open spec fn read_of<V>(stored: Option<V>) -> FileReadView<V> {
    match stored {
        None => FileReadView::Missing,
        Some(state) => FileReadView::Parsed(state),
    }
}

/// The settings with every field unset.
pub open spec fn unset_settings() -> AppSettingsView {
    AppSettingsView { vault_path: None, theme: None, accent_color: None, language: None }
}

/// What loading settings yields. No file stands for settings with every field
/// unset. A file that does not parse is an error, with the parser's message.
pub open spec fn settings_loaded(read: FileReadView<AppSettingsView>) -> Result<
    AppSettingsView,
    Seq<char>,
> {
    match read {
        FileReadView::Missing => Ok(unset_settings()),
        FileReadView::Parsed(settings) => Ok(settings),
        FileReadView::Invalid(reason) => Err(reason),
    }
}

/// What the settings file holds after a save: nothing for settings with every
/// field unset, else the settings.
pub open spec fn settings_saved(settings: AppSettingsView) -> Option<AppSettingsView> {
    if settings.is_empty() {
        None
    } else {
        Some(settings)
    }
}

/// The settings that a state file stands for.
pub fn load_settings(read: FileRead<AppSettings>) -> (loaded: Result<AppSettings, VaultError>)
    ensures
        match loaded {
            Ok(settings) => settings_loaded(read@) == Ok::<AppSettingsView, Seq<char>>(settings@),
            Err(error) => error.kind == ErrorKind::SerializationError && settings_loaded(read@)
                == Err::<AppSettingsView, Seq<char>>(error.message@),
        },
{
    match read {
        FileRead::Missing => Ok(AppSettings::default()),
        FileRead::Parsed(settings) => Ok(settings),
        FileRead::Invalid(reason) => Err(
            VaultError::with_message(ErrorKind::SerializationError, reason),
        ),
    }
}

/// What saving these settings does to their file. Settings with every field
/// unset remove the file; any others are written whole.
pub fn plan_settings_save(settings: AppSettings) -> (plan: SavePlan<AppSettings>)
    ensures
        plan.stored() == settings_saved(settings@),
{
    if settings.is_empty() {
        SavePlan::Remove
    } else {
        SavePlan::Write(settings)
    }
}

/// One field of the settings that a state file stands for.
pub fn load_settings_field(read: FileRead<AppSettings>, field: SettingsField) -> (loaded: Result<
    Option<String>,
    VaultError,
>)
    ensures
        match loaded {
            Ok(value) => settings_loaded(read@) matches Ok(settings) && text_view(value)
                == settings.field(field),
            Err(error) => error.kind == ErrorKind::SerializationError && settings_loaded(read@)
                == Err::<AppSettingsView, Seq<char>>(error.message@),
        },
{
    match load_settings(read) {
        Ok(settings) => Ok(settings.into_field(field)),
        Err(error) => Err(error),
    }
}

/// What saving one field does to the settings file: the settings that the
/// file stands for are saved with that field replaced, and with every other
/// field as the file has it.
pub fn plan_settings_field_save(
    read: FileRead<AppSettings>,
    field: SettingsField,
    value: Option<String>,
) -> (planned: Result<SavePlan<AppSettings>, VaultError>)
    ensures
        match planned {
            Ok(plan) => settings_loaded(read@) matches Ok(settings) && plan.stored()
                == settings_saved(settings.with_field(field, text_view(value))),
            Err(error) => error.kind == ErrorKind::SerializationError && settings_loaded(read@)
                == Err::<AppSettingsView, Seq<char>>(error.message@),
        },
{
    match load_settings(read) {
        Ok(settings) => Ok(plan_settings_save(settings.with_field(field, value))),
        Err(error) => Err(error),
    }
}

/// Settings that were saved load as they were saved, whether they were
/// written or stand for a removed file.
pub proof fn lemma_settings_round_trip(settings: AppSettingsView)
    ensures
        settings_loaded(read_of(settings_saved(settings))) == Ok::<AppSettingsView, Seq<char>>(
            settings,
        ),
{
}

/// Saving settings with every field unset leaves no file, whatever was there
/// before; saving any others leaves a file that holds them.
pub proof fn lemma_empty_settings_leave_no_file(settings: AppSettingsView)
    ensures
        settings.is_empty() <==> settings_saved(settings) is None,
        !settings.is_empty() ==> settings_saved(settings) == Some(settings),
{
}

/// A field that was saved loads as it was saved, and every other field loads
/// as the file had it before.
pub proof fn lemma_field_save_keeps_siblings(
    before: AppSettingsView,
    field: SettingsField,
    value: Option<Seq<char>>,
    other: SettingsField,
)
    ensures
        settings_loaded(read_of(settings_saved(before.with_field(field, value)))) matches Ok(after)
            && after.field(field) == value && (other != field ==> after.field(other)
            == before.field(other)),
{
}

/// The ledger with no user, no state and no active user.
pub open spec fn empty_ledger() -> StorageView {
    StorageView { users: Seq::empty(), user_state_by_id: Seq::empty(), last_active_user_id: None }
}

/// What loading a ledger yields. No file, and a file that does not parse,
/// stand for the empty ledger; a file that parses stands for what it holds,
/// reconciled.
pub open spec fn ledger_loaded(read: FileReadView<StorageView>) -> StorageView {
    match read {
        FileReadView::Parsed(ledger) => ledger.reconciled(),
        _ => empty_ledger(),
    }
}

/// What the ledger file holds after a save: the ledger, every card with its
/// box in the canonical field alone.
pub open spec fn ledger_saved(ledger: StorageView) -> Option<StorageView> {
    Some(ledger.persisted())
}

/// The ledger that a state file stands for. This never fails: a file that
/// does not parse counts as no ledger.
pub fn load_ledger(read: FileRead<SpacedRepetitionStorage>) -> (ledger: SpacedRepetitionStorage)
    ensures
        ledger@ == ledger_loaded(read@),
{
    match read {
        FileRead::Parsed(ledger) => ledger.reconciled(),
        _ => {
            let ledger = SpacedRepetitionStorage::default();
            assert(ledger@.users == empty_ledger().users);
            assert(ledger@.user_state_by_id == empty_ledger().user_state_by_id);
            ledger
        },
    }
}

/// What saving this ledger does to its file: it is always written, empty or
/// not.
pub fn plan_ledger_save(ledger: SpacedRepetitionStorage) -> (plan: SavePlan<
    SpacedRepetitionStorage,
>)
    ensures
        plan.stored() == ledger_saved(ledger@),
{
    SavePlan::Write(ledger.persisted())
}

/// A ledger that was saved loads as it was written: with every card's box in
/// the canonical field and none in the older one. Saving it again writes the
/// same.
pub proof fn lemma_ledger_round_trip(ledger: StorageView)
    ensures
        ledger_saved(ledger) is Some,
        ledger_loaded(read_of(ledger_saved(ledger))) == ledger.persisted(),
        ledger_saved(ledger_loaded(read_of(ledger_saved(ledger)))) == ledger_saved(ledger),
        ledger.persisted().canonical_only(),
{
    lemma_ledger_migrates(ledger);
    lemma_ledger_forms(ledger);
}

} // verus!
