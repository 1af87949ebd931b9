use vstd::prelude::*;
use vstd::string::StringExecFns;

verus! {

/// The lowercase form of a text under std's Unicode case mapping.
pub uninterp spec fn lower_of(s: Seq<char>) -> Seq<char>;

/// Relies on `str::to_lowercase` of std: the lowercase form of `s`, which
/// depends on its characters alone.
#[verifier::external_body]
fn lowercase(s: &str) -> (r: String)
    ensures
        r@ == lower_of(s@),
{
    s.to_lowercase()
}

/// How the rows of an input file are read.
#[derive(Clone, Copy, Debug, PartialEq, Eq, Structural)]
pub enum SourceFormat {
    /// Comma-separated text.
    Delimited,
    /// A spreadsheet workbook, of which the first sheet is read.
    Workbook,
}

/// Why no reader applies to a file.
#[derive(Debug)]
pub enum ContentError {
    /// The file name has no extension.
    NoExtension,
    /// The extension, as given, is none that a reader handles.
    UnsupportedExtension(String),
}

/// The format that a lowercase extension stands for, if any.
pub open spec fn format_for(ext: Seq<char>) -> Option<SourceFormat> {
    if ext == "csv"@ {
        Some(SourceFormat::Delimited)
    } else if ext == "xlsx"@ || ext == "xls"@ || ext == "xlsm"@ || ext == "xlsb"@ || ext
        == "ods"@ {
        Some(SourceFormat::Workbook)
    } else {
        None
    }
}

/// Whether `a` and `b` hold the same text.
fn same_text(a: &str, b: &str) -> (r: bool)
    ensures
        r == (a@ == b@),
{
    String::from_str(a) == String::from_str(b)
}

/// The format that an extension, already in lowercase, stands for.
pub fn format_of_lowercase(ext: &str) -> (r: Option<SourceFormat>)
    ensures
        r == format_for(ext@),
{
    if same_text(ext, "csv") {
        Some(SourceFormat::Delimited)
    } else if same_text(ext, "xlsx") || same_text(ext, "xls") || same_text(ext, "xlsm")
        || same_text(ext, "xlsb") || same_text(ext, "ods") {
        Some(SourceFormat::Workbook)
    } else {
        None
    }
}

/// Whether a path names a file that a reader handles: it is a regular file
/// and its extension, in any case, is one of the supported ones.
pub fn is_path_valid(is_file: bool, extension: Option<&str>) -> (r: bool)
    ensures
        r == (is_file && extension is Some && format_for(lower_of(extension->0@)) is Some),
{
    if !is_file {
        return false;
    }
    match extension {
        Some(ext) => format_of_lowercase(lowercase(ext).as_str()).is_some(),
        None => false,
    }
}

/// Decides how the contents of a file with this extension are got: the
/// reader for its format, or why there is none.
pub fn get_file_contents(extension: Option<&str>) -> (r: Result<SourceFormat, ContentError>)
    ensures
        extension is None ==> r matches Err(ContentError::NoExtension),
        extension is Some ==> match format_for(lower_of(extension->0@)) {
            Some(f) => r == Ok::<SourceFormat, ContentError>(f),
            None => r matches Err(ContentError::UnsupportedExtension(e)) && e@ == extension->0@,
        },
{
    match extension {
        Some(ext) => match format_of_lowercase(lowercase(ext).as_str()) {
            Some(f) => Ok(f),
            None => Err(ContentError::UnsupportedExtension(String::from_str(ext))),
        },
        None => Err(ContentError::NoExtension),
    }
}

} // verus!
