use std::path::Path;
use tiger::document::{Document, DocumentCommand};
use tiger::export::{
    validate_output_directory_path, validate_output_file_path, validate_template_path,
    ExportSettingsError, ExportSettingsValidation, PathFacts, TemplateExportSettingsValidation,
    TemplatePathFacts,
};
use tiger::sheet::ExportFormat;

fn facts(p: &str) -> PathFacts {
    let path = Path::new(p);
    PathFacts {
        is_relative: path.is_relative(),
        is_dir: path.is_dir(),
        is_file: path.is_file(),
        exists: path.exists(),
    }
}

fn settings_facts(d: &Document) -> TemplatePathFacts {
    let e = d.persistent.export_settings_edit.as_ref().unwrap();
    let ExportFormat::Template(t) = &e.format;
    TemplatePathFacts {
        template_file: facts(t),
        template_error: None,
        texture_file: facts(&e.texture_destination),
        metadata_file: facts(&e.metadata_destination),
        metadata_paths_root: facts(&e.metadata_paths_root),
    }
}

fn all_relative() -> ExportSettingsValidation {
    ExportSettingsValidation::Template(TemplateExportSettingsValidation::new(
        Some(ExportSettingsError::ExpectedAbsolutePath),
        Some(ExportSettingsError::ExpectedAbsolutePath),
        Some(ExportSettingsError::ExpectedAbsolutePath),
        Some(ExportSettingsError::ExpectedAbsolutePath),
    ))
}

#[test]
fn validates_empty_paths_in_export_settings() {
    let mut d = Document::new(&"tmp.tiger".to_string());
    d.process_command(DocumentCommand::BeginExportAs).unwrap();
    let f = settings_facts(&d);
    assert_eq!(d.validate_export_settings(&f).unwrap(), all_relative());
}

#[test]
fn validates_relative_paths_in_export_settings() {
    let mut d = Document::new(&"tmp.tiger".to_string());
    d.process_command(DocumentCommand::BeginExportAs).unwrap();
    d.process_command(DocumentCommand::EndSetExportFormat(ExportFormat::Template(
        "relative/path.template".to_string(),
    )))
    .unwrap();
    d.process_command(DocumentCommand::EndSetExportTextureDestination("relative/path.png".to_string()))
        .unwrap();
    d.process_command(DocumentCommand::EndSetExportMetadataDestination("relative/path.json".to_string()))
        .unwrap();
    d.process_command(DocumentCommand::EndSetExportMetadataPathsRoot("relative/".to_string()))
        .unwrap();
    let f = settings_facts(&d);
    assert_eq!(d.validate_export_settings(&f).unwrap(), all_relative());
}

#[test]
fn validation_needs_settings_being_edited() {
    let d = Document::new(&"tmp.tiger".to_string());
    let f = TemplatePathFacts {
        template_file: facts(""),
        template_error: None,
        texture_file: facts(""),
        metadata_file: facts(""),
        metadata_paths_root: facts(""),
    };
    assert!(d.validate_export_settings(&f).is_err());
}

#[test]
fn path_checks_follow_the_facts() {
    let abs_file = PathFacts { is_relative: false, is_dir: false, is_file: true, exists: true };
    let abs_dir = PathFacts { is_relative: false, is_dir: true, is_file: false, exists: true };
    let missing = PathFacts { is_relative: false, is_dir: false, is_file: false, exists: false };
    assert_eq!(validate_output_file_path(abs_dir), Some(ExportSettingsError::ExpectedFile));
    assert_eq!(validate_output_file_path(abs_file), None);
    assert_eq!(validate_output_directory_path(abs_file), Some(ExportSettingsError::ExpectedDirectory));
    assert_eq!(validate_output_directory_path(abs_dir), None);
    assert_eq!(validate_template_path(missing, None), Some(ExportSettingsError::FileNotFound));
    assert_eq!(validate_template_path(abs_dir, None), Some(ExportSettingsError::ExpectedFile));
    assert_eq!(
        validate_template_path(abs_file, Some("bad template".to_string())),
        Some(ExportSettingsError::TemplateError("bad template".to_string()))
    );
    assert_eq!(validate_template_path(abs_file, None), None);
}

#[test]
fn validation_getters_report_each_path() {
    let v = TemplateExportSettingsValidation::new(
        Some(ExportSettingsError::FileNotFound),
        None,
        Some(ExportSettingsError::ExpectedFile),
        Some(ExportSettingsError::ExpectedDirectory),
    );
    assert_eq!(v.template_file_error(), Some(&ExportSettingsError::FileNotFound));
    assert_eq!(v.texture_file_error(), None);
    assert_eq!(v.metadata_file_error(), Some(&ExportSettingsError::ExpectedFile));
    assert_eq!(v.metadata_paths_root_error(), Some(&ExportSettingsError::ExpectedDirectory));
}

#[test]
fn validates_template_file() {
    let file = PathFacts { is_relative: false, is_dir: false, is_file: true, exists: true };
    let table: Vec<(Option<String>, fn(Option<ExportSettingsError>) -> bool)> = vec![
        (None, |e| e.is_none()),
        (Some("not a template".to_string()), |e| matches!(e, Some(ExportSettingsError::TemplateError(_)))),
    ];
    let mut d = Document::new(&"tmp.tiger".to_string());
    d.process_command(DocumentCommand::BeginExportAs).unwrap();
    for (template_error, test) in table {
        let f = TemplatePathFacts {
            template_file: file,
            template_error,
            texture_file: facts(""),
            metadata_file: facts(""),
            metadata_paths_root: facts(""),
        };
        let ExportSettingsValidation::Template(validation) = d.validate_export_settings(&f).unwrap();
        assert!(test(validation.template_file_error().cloned()));
    }
}
