//! Application settings: one object that several features share, each its own
//! field.

use vstd::prelude::*;

verus! {

/// What an optional text holds.
pub open spec fn text_view(text: Option<String>) -> Option<Seq<char>> {
    match text {
        Some(s) => Some(s@),
        None => None,
    }
}

/// The fields of the settings.
#[derive(Clone, Copy, Debug, PartialEq, Eq, Structural)]
pub enum SettingsField {
    VaultPath,
    Theme,
    AccentColor,
    Language,
}

/// The settings of the application. A field that was never set, or was
/// cleared, is `None`.
#[derive(Clone, Debug, PartialEq, Eq)]
pub struct AppSettings {
    pub vault_path: Option<String>,
    pub theme: Option<String>,
    pub accent_color: Option<String>,
    pub language: Option<String>,
}

/// What the settings hold.
pub struct AppSettingsView {
    pub vault_path: Option<Seq<char>>,
    pub theme: Option<Seq<char>>,
    pub accent_color: Option<Seq<char>>,
    pub language: Option<Seq<char>>,
}

impl AppSettingsView {
    /// No field is set.
    pub open spec fn is_empty(self) -> bool {
        &&& self.vault_path is None
        &&& self.theme is None
        &&& self.accent_color is None
        &&& self.language is None
    }

    /// The value of one field.
    pub open spec fn field(self, field: SettingsField) -> Option<Seq<char>> {
        match field {
            SettingsField::VaultPath => self.vault_path,
            SettingsField::Theme => self.theme,
            SettingsField::AccentColor => self.accent_color,
            SettingsField::Language => self.language,
        }
    }

    /// The settings with one field replaced and the others as they are.
    pub open spec fn with_field(self, field: SettingsField, value: Option<Seq<char>>) -> Self {
        match field {
            SettingsField::VaultPath => AppSettingsView { vault_path: value, ..self },
            SettingsField::Theme => AppSettingsView { theme: value, ..self },
            SettingsField::AccentColor => AppSettingsView { accent_color: value, ..self },
            SettingsField::Language => AppSettingsView { language: value, ..self },
        }
    }
}

impl View for AppSettings {
    type V = AppSettingsView;

    open spec fn view(&self) -> AppSettingsView {
        AppSettingsView {
            vault_path: text_view(self.vault_path),
            theme: text_view(self.theme),
            accent_color: text_view(self.accent_color),
            language: text_view(self.language),
        }
    }
}

impl Default for AppSettings {
    /// The settings with every field unset.
    fn default() -> (settings: AppSettings)
        ensures
            settings@.is_empty(),
    {
        AppSettings { vault_path: None, theme: None, accent_color: None, language: None }
    }
}

impl AppSettings {
    /// The settings with the given fields.
    pub fn new(
        vault_path: Option<String>,
        theme: Option<String>,
        accent_color: Option<String>,
        language: Option<String>,
    ) -> (settings: AppSettings)
        ensures
            settings@ == (AppSettingsView {
                vault_path: text_view(vault_path),
                theme: text_view(theme),
                accent_color: text_view(accent_color),
                language: text_view(language),
            }),
    {
        AppSettings { vault_path, theme, accent_color, language }
    }

    /// Whether no field is set. Such settings are kept as no file at all.
    pub fn is_empty(&self) -> (empty: bool)
        ensures
            empty == self@.is_empty(),
    {
        self.vault_path.is_none() && self.theme.is_none() && self.accent_color.is_none()
            && self.language.is_none()
    }

    /// The value of one field.
    pub fn into_field(self, field: SettingsField) -> (value: Option<String>)
        ensures
            text_view(value) == self@.field(field),
    {
        match field {
            SettingsField::VaultPath => self.vault_path,
            SettingsField::Theme => self.theme,
            SettingsField::AccentColor => self.accent_color,
            SettingsField::Language => self.language,
        }
    }

    /// The settings with one field replaced. The other fields stay as they
    /// are, whichever feature wrote them.
    pub fn with_field(self, field: SettingsField, value: Option<String>) -> (settings: AppSettings)
        ensures
            settings@ == self@.with_field(field, text_view(value)),
    {
        match field {
            SettingsField::VaultPath => AppSettings { vault_path: value, ..self },
            SettingsField::Theme => AppSettings { theme: value, ..self },
            SettingsField::AccentColor => AppSettings { accent_color: value, ..self },
            SettingsField::Language => AppSettings { language: value, ..self },
        }
    }
}

/// A field that was written reads back as written.
pub proof fn lemma_field_reads_back(
    settings: AppSettingsView,
    field: SettingsField,
    value: Option<Seq<char>>,
)
    ensures
        settings.with_field(field, value).field(field) == value,
{
}

/// Writing one field leaves every other field as it was.
pub proof fn lemma_other_fields_kept(
    settings: AppSettingsView,
    written: SettingsField,
    value: Option<Seq<char>>,
    other: SettingsField,
)
    requires
        other != written,
    ensures
        settings.with_field(written, value).field(other) == settings.field(other),
{
}

} // verus!
