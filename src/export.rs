//! Validation of export settings against what the file system says of
//! their paths.

use vstd::prelude::*;

use crate::document::{Document, DocumentError};

verus! {

/// What is wrong with one path of the export settings.
#[derive(Clone, Debug)]
pub enum ExportSettingsError {
    ExpectedAbsolutePath,
    ExpectedDirectory,
    ExpectedFile,
    FileNotFound,
    TemplateError(String),
}

pub ghost enum ExportSettingsErrorModel {
    ExpectedAbsolutePath,
    ExpectedDirectory,
    ExpectedFile,
    FileNotFound,
    TemplateError(Seq<char>),
}

impl View for ExportSettingsError {
    type V = ExportSettingsErrorModel;

    open spec fn view(&self) -> ExportSettingsErrorModel {
        match self {
            ExportSettingsError::ExpectedAbsolutePath => ExportSettingsErrorModel::ExpectedAbsolutePath,
            ExportSettingsError::ExpectedDirectory => ExportSettingsErrorModel::ExpectedDirectory,
            ExportSettingsError::ExpectedFile => ExportSettingsErrorModel::ExpectedFile,
            ExportSettingsError::FileNotFound => ExportSettingsErrorModel::FileNotFound,
            ExportSettingsError::TemplateError(m) => ExportSettingsErrorModel::TemplateError(m@),
        }
    }
}

impl PartialEq for ExportSettingsError {
    fn eq(&self, o: &ExportSettingsError) -> (r: bool)
        ensures
            r == (self@ == o@),
    {
        match self {
            ExportSettingsError::ExpectedAbsolutePath => matches!(o, ExportSettingsError::ExpectedAbsolutePath),
            ExportSettingsError::ExpectedDirectory => matches!(o, ExportSettingsError::ExpectedDirectory),
            ExportSettingsError::ExpectedFile => matches!(o, ExportSettingsError::ExpectedFile),
            ExportSettingsError::FileNotFound => matches!(o, ExportSettingsError::FileNotFound),
            ExportSettingsError::TemplateError(a) => match o {
                ExportSettingsError::TemplateError(b) => *a == *b,
                _ => false,
            },
        }
    }
}

impl vstd::std_specs::cmp::PartialEqSpecImpl for ExportSettingsError {
    open spec fn obeys_eq_spec() -> bool {
        true
    }

    open spec fn eq_spec(&self, o: &ExportSettingsError) -> bool {
        self@ == o@
    }
}

pub open spec fn error_view(e: Option<ExportSettingsError>) -> Option<ExportSettingsErrorModel> {
    match e {
        Some(x) => Some(x@),
        None => None,
    }
}

/// What the file system says of one path, as read when validating.
#[derive(Clone, Copy, Debug, PartialEq, Eq, Structural)]
pub struct PathFacts {
    pub is_relative: bool,
    pub is_dir: bool,
    pub is_file: bool,
    pub exists: bool,
}

/// The outcome of validating template export settings, path by path.
#[derive(Clone, Debug)]
pub struct TemplateExportSettingsValidation {
    template_file_error: Option<ExportSettingsError>,
    texture_file_error: Option<ExportSettingsError>,
    metadata_file_error: Option<ExportSettingsError>,
    metadata_paths_root_error: Option<ExportSettingsError>,
}

/// The outcome of validating export settings.
#[derive(Clone, Debug)]
pub enum ExportSettingsValidation {
    Template(TemplateExportSettingsValidation),
}

impl PartialEq for TemplateExportSettingsValidation {
    fn eq(&self, o: &TemplateExportSettingsValidation) -> (r: bool)
        ensures
            r == (self.spec_errors() == o.spec_errors()),
    {
        same_error(&self.template_file_error, &o.template_file_error)
            && same_error(&self.texture_file_error, &o.texture_file_error)
            && same_error(&self.metadata_file_error, &o.metadata_file_error)
            && same_error(&self.metadata_paths_root_error, &o.metadata_paths_root_error)
    }
}

impl vstd::std_specs::cmp::PartialEqSpecImpl for TemplateExportSettingsValidation {
    open spec fn obeys_eq_spec() -> bool {
        true
    }

    open spec fn eq_spec(&self, o: &TemplateExportSettingsValidation) -> bool {
        self.spec_errors() == o.spec_errors()
    }
}

impl PartialEq for ExportSettingsValidation {
    fn eq(&self, o: &ExportSettingsValidation) -> (r: bool)
        ensures
            r == (self.spec_template().spec_errors() == o.spec_template().spec_errors()),
    {
        let ExportSettingsValidation::Template(a) = self;
        let ExportSettingsValidation::Template(b) = o;
        *a == *b
    }
}

impl vstd::std_specs::cmp::PartialEqSpecImpl for ExportSettingsValidation {
    open spec fn obeys_eq_spec() -> bool {
        true
    }

    open spec fn eq_spec(&self, o: &ExportSettingsValidation) -> bool {
        self.spec_template().spec_errors() == o.spec_template().spec_errors()
    }
}

impl ExportSettingsValidation {
    pub open spec fn spec_template(&self) -> TemplateExportSettingsValidation {
        match self {
            ExportSettingsValidation::Template(t) => *t,
        }
    }
}

fn same_error(a: &Option<ExportSettingsError>, b: &Option<ExportSettingsError>) -> (r: bool)
    ensures
        r == (error_view(*a) == error_view(*b)),
{
    match a {
        Some(x) => match b {
            Some(y) => *x == *y,
            None => false,
        },
        None => b.is_none(),
    }
}

impl TemplateExportSettingsValidation {
    /// The four outcomes: template file, texture file, metadata file,
    /// metadata paths root.
    pub closed spec fn spec_errors(&self) -> (
        Option<ExportSettingsErrorModel>,
        Option<ExportSettingsErrorModel>,
        Option<ExportSettingsErrorModel>,
        Option<ExportSettingsErrorModel>,
    ) {
        (
            error_view(self.template_file_error),
            error_view(self.texture_file_error),
            error_view(self.metadata_file_error),
            error_view(self.metadata_paths_root_error),
        )
    }

    /// A validation holding these four outcomes.
    pub fn new(
        template_file_error: Option<ExportSettingsError>,
        texture_file_error: Option<ExportSettingsError>,
        metadata_file_error: Option<ExportSettingsError>,
        metadata_paths_root_error: Option<ExportSettingsError>,
    ) -> (r: TemplateExportSettingsValidation)
        ensures
            r.spec_errors() == (
                error_view(template_file_error),
                error_view(texture_file_error),
                error_view(metadata_file_error),
                error_view(metadata_paths_root_error),
            ),
    {
        TemplateExportSettingsValidation {
            template_file_error,
            texture_file_error,
            metadata_file_error,
            metadata_paths_root_error,
        }
    }

    pub fn template_file_error(&self) -> (r: Option<&ExportSettingsError>)
        ensures
            match r {
                Some(e) => self.spec_errors().0 == Some(e@),
                None => self.spec_errors().0 is None,
            },
    {
        self.template_file_error.as_ref()
    }

    pub fn texture_file_error(&self) -> (r: Option<&ExportSettingsError>)
        ensures
            match r {
                Some(e) => self.spec_errors().1 == Some(e@),
                None => self.spec_errors().1 is None,
            },
    {
        self.texture_file_error.as_ref()
    }

    pub fn metadata_file_error(&self) -> (r: Option<&ExportSettingsError>)
        ensures
            match r {
                Some(e) => self.spec_errors().2 == Some(e@),
                None => self.spec_errors().2 is None,
            },
    {
        self.metadata_file_error.as_ref()
    }

    pub fn metadata_paths_root_error(&self) -> (r: Option<&ExportSettingsError>)
        ensures
            match r {
                Some(e) => self.spec_errors().3 == Some(e@),
                None => self.spec_errors().3 is None,
            },
    {
        self.metadata_paths_root_error.as_ref()
    }
}

/// A template path must be absolute, a file, and exist; then the template
/// must load (`template_error` holds why it did not).
pub open spec fn template_path_error(path: PathFacts, template_error: Option<Seq<char>>) -> Option<ExportSettingsErrorModel> {
    if path.is_relative {
        Some(ExportSettingsErrorModel::ExpectedAbsolutePath)
    } else if path.is_dir {
        Some(ExportSettingsErrorModel::ExpectedFile)
    } else if !path.exists {
        Some(ExportSettingsErrorModel::FileNotFound)
    } else {
        match template_error {
            Some(m) => Some(ExportSettingsErrorModel::TemplateError(m)),
            None => None,
        }
    }
}

/// An output file must be absolute and not a directory.
pub open spec fn output_file_error(path: PathFacts) -> Option<ExportSettingsErrorModel> {
    if path.is_relative {
        Some(ExportSettingsErrorModel::ExpectedAbsolutePath)
    } else if path.is_dir {
        Some(ExportSettingsErrorModel::ExpectedFile)
    } else {
        None
    }
}

/// An output directory must be absolute and not a file.
pub open spec fn output_directory_error(path: PathFacts) -> Option<ExportSettingsErrorModel> {
    if path.is_relative {
        Some(ExportSettingsErrorModel::ExpectedAbsolutePath)
    } else if path.is_file {
        Some(ExportSettingsErrorModel::ExpectedDirectory)
    } else {
        None
    }
}

/// Validates the path of a template (see `template_path_error`).
pub fn validate_template_path(path: PathFacts, template_error: Option<String>) -> (r: Option<ExportSettingsError>)
    ensures
        error_view(r) == template_path_error(path, match template_error {
            Some(m) => Some(m@),
            None => None,
        }),
{
    if path.is_relative {
        Some(ExportSettingsError::ExpectedAbsolutePath)
    } else if path.is_dir {
        Some(ExportSettingsError::ExpectedFile)
    } else if !path.exists {
        Some(ExportSettingsError::FileNotFound)
    } else {
        match template_error {
            Some(m) => Some(ExportSettingsError::TemplateError(m)),
            None => None,
        }
    }
}

/// Validates the path of an output file (see `output_file_error`).
pub fn validate_output_file_path(path: PathFacts) -> (r: Option<ExportSettingsError>)
    ensures
        error_view(r) == output_file_error(path),
{
    if path.is_relative {
        Some(ExportSettingsError::ExpectedAbsolutePath)
    } else if path.is_dir {
        Some(ExportSettingsError::ExpectedFile)
    } else {
        None
    }
}

/// Validates the path of an output directory (see `output_directory_error`).
pub fn validate_output_directory_path(path: PathFacts) -> (r: Option<ExportSettingsError>)
    ensures
        error_view(r) == output_directory_error(path),
{
    if path.is_relative {
        Some(ExportSettingsError::ExpectedAbsolutePath)
    } else if path.is_file {
        Some(ExportSettingsError::ExpectedDirectory)
    } else {
        None
    }
}

/// What the file system says of each path of template export settings.
#[derive(Clone, Debug)]
pub struct TemplatePathFacts {
    pub template_file: PathFacts,
    pub template_error: Option<String>,
    pub texture_file: PathFacts,
    pub metadata_file: PathFacts,
    pub metadata_paths_root: PathFacts,
}

impl Document {
    /// Validates the export settings being edited, given what the file system
    /// says of their paths; fails where none are being edited.
    pub fn validate_export_settings(&self, facts: &TemplatePathFacts) -> (r: Result<ExportSettingsValidation, DocumentError>)
        ensures
            r.is_err() <==> self.persistent.export_settings_edit is None,
            r.is_err() ==> r == Err::<ExportSettingsValidation, DocumentError>(DocumentError::NotExporting),
            r matches Ok(v) ==> v.spec_template().spec_errors() == (
                template_path_error(facts.template_file, match facts.template_error {
                    Some(m) => Some(m@),
                    None => None,
                }),
                output_file_error(facts.texture_file),
                output_file_error(facts.metadata_file),
                output_directory_error(facts.metadata_paths_root),
            ),
    {
        if self.persistent.export_settings_edit.is_none() {
            return Err(DocumentError::NotExporting);
        }
        let template_error = match &facts.template_error {
            Some(m) => Some(m.clone()),
            None => None,
        };
        Ok(ExportSettingsValidation::Template(TemplateExportSettingsValidation::new(
            validate_template_path(facts.template_file, template_error),
            validate_output_file_path(facts.texture_file),
            validate_output_file_path(facts.metadata_file),
            validate_output_directory_path(facts.metadata_paths_root),
        )))
    }
}

} // verus!
