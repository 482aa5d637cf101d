use vstd::prelude::*;
use vstd::string::to_string_from_display_ensures;

verus! {

/// `std::io::Error`, carried through as an opaque value.
#[verifier::external_type_specification]
#[verifier::external_body]
pub struct ExIoError(std::io::Error);

/// Why a run failed.
#[derive(Debug)]
pub enum ExtractError {
    /// A file system operation failed.
    Io(std::io::Error),
    /// The settings are not usable.
    Config(String),
    /// The directory to read images from does not exist.
    SourceNotFound(String),
    /// A file name is not valid text: the data is bad, not the environment.
    InvalidFileName,
    /// No file passed the selection.
    NoImagesFound,
}

impl ExtractError {
    /// The underlying I/O failure, where there is one.
    pub fn source(&self) -> (r: Option<&std::io::Error>)
        ensures
            match self {
                ExtractError::Io(e) => r == Some(e),
                _ => r is None,
            },
    {
        match self {
            ExtractError::Io(e) => Some(e),
            _ => None,
        }
    }

    /// A description of the failure for the user.
    pub fn message(&self) -> (r: String)
        ensures
            match self {
                ExtractError::Io(e) => exists|t: String|
                    to_string_from_display_ensures::<std::io::Error>(e, t) && r@ == "I/O error: "@
                        + t@,
                ExtractError::Config(m) => r@ == "Configuration error: "@ + m@,
                ExtractError::SourceNotFound(path) => r@ == "Source directory not found: '"@ + path@
                    + "'. This may indicate that Windows Content Delivery Manager is not enabled or you're not on Windows 10/11."@,
                ExtractError::InvalidFileName => r@ == "File name is not valid UTF-8"@,
                ExtractError::NoImagesFound => r@
                    == "No suitable image files found in source directory"@,
            },
    {
        match self {
            ExtractError::Io(e) => {
                let t = e.to_string();
                let mut r = String::from_str("I/O error: ");
                r.append(t.as_str());
                r
            },
            ExtractError::Config(m) => {
                let mut r = String::from_str("Configuration error: ");
                r.append(m.as_str());
                r
            },
            ExtractError::SourceNotFound(path) => {
                let mut r = String::from_str("Source directory not found: '");
                r.append(path.as_str());
                r.append(
                    "'. This may indicate that Windows Content Delivery Manager is not enabled or you're not on Windows 10/11.",
                );
                r
            },
            ExtractError::InvalidFileName => String::from_str("File name is not valid UTF-8"),
            ExtractError::NoImagesFound => String::from_str(
                "No suitable image files found in source directory",
            ),
        }
    }
}

impl From<std::io::Error> for ExtractError {
    fn from(err: std::io::Error) -> (r: Self)
        ensures
            r == ExtractError::Io(err),
    {
        ExtractError::Io(err)
    }
}

impl vstd::std_specs::convert::FromSpecImpl<std::io::Error> for ExtractError {
    open spec fn obeys_from_spec() -> bool {
        true
    }

    open spec fn from_spec(v: std::io::Error) -> Self {
        ExtractError::Io(v)
    }
}

} // verus!
