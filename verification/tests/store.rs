use vault_store::error::ErrorKind;
use vault_store::settings::{AppSettings, SettingsField};
use vault_store::store::{
    load_settings, load_settings_field, plan_settings_field_save, plan_settings_save,
    state_file_name, FileRead, SavePlan, StateFile,
};

fn some(text: &str) -> Option<String> {
    Some(text.to_string())
}

fn full() -> AppSettings {
    AppSettings::new(some("/home/u/vault"), some("dark"), some("#ff8800"), some("en"))
}

/// What a read finds after the plan was carried out on a file.
fn read_after(plan: SavePlan<AppSettings>) -> FileRead<AppSettings> {
    match plan {
        SavePlan::Remove => FileRead::Missing,
        SavePlan::Write(settings) => FileRead::Parsed(settings),
    }
}

const FIELDS: [SettingsField; 4] = [
    SettingsField::VaultPath,
    SettingsField::Theme,
    SettingsField::AccentColor,
    SettingsField::Language,
];

#[test]
fn state_files_have_their_names() {
    assert_eq!(state_file_name(StateFile::Settings), "settings.json");
    assert_eq!(state_file_name(StateFile::SpacedRepetition), "spaced_repetition.json");
}

#[test]
fn default_settings_are_empty() {
    let settings = AppSettings::default();
    assert!(settings.is_empty());
    assert_eq!(settings, AppSettings::new(None, None, None, None));
    assert_eq!(settings.vault_path, None);
    assert_eq!(settings.theme, None);
    assert_eq!(settings.accent_color, None);
    assert_eq!(settings.language, None);
}

#[test]
fn settings_with_any_field_are_not_empty() {
    for field in FIELDS {
        let settings = AppSettings::default().with_field(field, some("x"));
        assert!(!settings.is_empty());
    }
    assert!(!AppSettings::default().with_field(SettingsField::Theme, some("")).is_empty());
    assert!(!full().is_empty());
}

#[test]
fn a_field_reads_back_and_leaves_the_others() {
    for written in FIELDS {
        let settings = full().with_field(written, some("new"));
        for other in FIELDS {
            let expected =
                if other == written { some("new") } else { full().into_field(other) };
            assert_eq!(settings.clone().into_field(other), expected);
        }
        let cleared = full().with_field(written, None);
        for other in FIELDS {
            let expected = if other == written { None } else { full().into_field(other) };
            assert_eq!(cleared.clone().into_field(other), expected);
        }
    }
}

#[test]
fn saving_empty_settings_removes_the_file() {
    assert_eq!(plan_settings_save(AppSettings::default()), SavePlan::Remove);
    assert_eq!(plan_settings_save(AppSettings::new(None, None, None, None)), SavePlan::Remove);
}

#[test]
fn saving_settings_writes_them_whole() {
    assert_eq!(plan_settings_save(full()), SavePlan::Write(full()));
    let one = AppSettings::new(None, None, None, some("fr"));
    assert_eq!(plan_settings_save(one.clone()), SavePlan::Write(one));
    let blank = AppSettings::new(some(""), None, None, None);
    assert_eq!(plan_settings_save(blank.clone()), SavePlan::Write(blank));
}

#[test]
fn loading_without_a_file_gives_unset_settings() {
    let loaded = load_settings(FileRead::Missing).unwrap();
    assert_eq!(loaded, AppSettings::new(None, None, None, None));
    assert!(loaded.is_empty());
}

#[test]
fn loading_a_file_gives_what_it_holds() {
    assert_eq!(load_settings(FileRead::Parsed(full())), Ok(full()));
    let one = AppSettings::new(None, some("light"), None, None);
    assert_eq!(load_settings(FileRead::Parsed(one.clone())), Ok(one));
}

#[test]
fn settings_that_do_not_parse_are_an_error() {
    let error = load_settings(FileRead::Invalid("expected value at line 1".to_string()))
        .unwrap_err();
    assert_eq!(error.kind, ErrorKind::SerializationError);
    assert_eq!(error.message, "expected value at line 1");
}

#[test]
fn settings_load_as_they_were_saved() {
    let samples = [
        full(),
        AppSettings::new(some("/v"), None, None, None),
        AppSettings::new(None, some("dark"), None, None),
        AppSettings::new(None, None, some("#000"), None),
        AppSettings::new(None, None, None, some("de")),
        AppSettings::new(some(""), some(""), None, None),
        AppSettings::new(some("é/日"), None, some("x"), None),
        AppSettings::default(),
    ];
    for settings in samples {
        let plan = plan_settings_save(settings.clone());
        assert_eq!(load_settings(read_after(plan)), Ok(settings));
    }
}

#[test]
fn loading_a_field_projects_it() {
    assert_eq!(load_settings_field(FileRead::Missing, SettingsField::VaultPath), Ok(None));
    assert_eq!(
        load_settings_field(FileRead::Parsed(full()), SettingsField::VaultPath),
        Ok(some("/home/u/vault"))
    );
    assert_eq!(
        load_settings_field(FileRead::Parsed(full()), SettingsField::Language),
        Ok(some("en"))
    );
    let error = load_settings_field(FileRead::Invalid("bad".to_string()), SettingsField::Theme)
        .unwrap_err();
    assert_eq!(error.kind, ErrorKind::SerializationError);
    assert_eq!(error.message, "bad");
}

#[test]
fn saving_a_field_keeps_its_siblings() {
    let plan =
        plan_settings_field_save(FileRead::Parsed(full()), SettingsField::VaultPath, some("/new"));
    assert_eq!(
        plan,
        Ok(SavePlan::Write(AppSettings::new(
            some("/new"),
            some("dark"),
            some("#ff8800"),
            some("en")
        )))
    );
    let plan = plan_settings_field_save(FileRead::Parsed(full()), SettingsField::VaultPath, None);
    assert_eq!(
        plan,
        Ok(SavePlan::Write(AppSettings::new(None, some("dark"), some("#ff8800"), some("en"))))
    );
}

#[test]
fn saving_a_field_into_no_file_writes_that_field_alone() {
    let plan = plan_settings_field_save(FileRead::Missing, SettingsField::Theme, some("dark"));
    assert_eq!(plan, Ok(SavePlan::Write(AppSettings::new(None, some("dark"), None, None))));
}

#[test]
fn clearing_the_last_field_removes_the_file() {
    let only = AppSettings::new(some("/v"), None, None, None);
    let plan = plan_settings_field_save(FileRead::Parsed(only), SettingsField::VaultPath, None);
    assert_eq!(plan, Ok(SavePlan::Remove));
    let plan = plan_settings_field_save(FileRead::Missing, SettingsField::VaultPath, None);
    assert_eq!(plan, Ok(SavePlan::Remove));
}

#[test]
fn saving_a_field_over_a_file_that_does_not_parse_fails() {
    let error = plan_settings_field_save(
        FileRead::Invalid("trailing comma".to_string()),
        SettingsField::VaultPath,
        some("/v"),
    )
    .unwrap_err();
    assert_eq!(error.kind, ErrorKind::SerializationError);
    assert_eq!(error.message, "trailing comma");
}
