//! Which files matter, by their extensions.

use vstd::prelude::*;

use crate::text::{is_listed, lowercase, opt_str, str_texts};

verus! {

/// The extensions of audio files, in lower case.
pub open spec fn audio_extension_names() -> Seq<Seq<char>> {
    seq!["wav"@, "mp3"@, "aiff"@, "aif"@, "flac"@, "ogg"@, "m4a"@]
}

/// Whether an extension, in whatever case, is that of an audio file.
pub open spec fn is_audio_extension(ext: Option<Seq<char>>) -> bool {
    match ext {
        Some(e) => audio_extension_names().contains(lowercase(e)),
        None => false,
    }
}

/// The kinds of files that describe the audio files next to them.
#[derive(Clone, Copy, Debug, PartialEq, Eq, Structural)]
pub enum SidecarFormat {
    /// Comma-separated values.
    Csv,
    /// A spreadsheet.
    Workbook,
    /// Plain text, one entry per line.
    Text,
}

/// The kind of sidecar that a lower case extension stands for.
pub open spec fn sidecar_format_named(ext: Seq<char>) -> Option<SidecarFormat> {
    if ext == "csv"@ {
        Some(SidecarFormat::Csv)
    } else if ext == "xlsx"@ || ext == "xls"@ || ext == "xlsm"@ {
        Some(SidecarFormat::Workbook)
    } else if ext == "txt"@ {
        Some(SidecarFormat::Text)
    } else {
        None
    }
}

/// The kind of sidecar that an extension, in whatever case, stands for.
pub open spec fn sidecar_format_of(ext: Option<Seq<char>>) -> Option<SidecarFormat> {
    match ext {
        Some(e) => sidecar_format_named(lowercase(e)),
        None => None,
    }
}

/// The extensions of audio files, in lower case.
pub fn audio_extensions() -> (r: Vec<&'static str>)
    ensures
        str_texts(r@) == audio_extension_names(),
{
    let r: Vec<&'static str> = vec!["wav", "mp3", "aiff", "aif", "flac", "ogg", "m4a"];
    assert(str_texts(r@) =~= audio_extension_names());
    r
}

/// Whether a file with this extension is an audio file.
pub fn is_audio_file(extension: Option<&str>) -> (r: bool)
    ensures
        r == is_audio_extension(opt_str(extension)),
{
    match extension {
        Some(e) => is_listed(&audio_extensions(), e.to_lowercase().as_str()),
        None => false,
    }
}

/// The kind of sidecar that a file with this extension is, if any.
pub fn sidecar_format(extension: Option<&str>) -> (r: Option<SidecarFormat>)
    ensures
        r == sidecar_format_of(opt_str(extension)),
{
    let ext = match extension {
        Some(e) => e.to_lowercase(),
        None => return None,
    };
    if *ext.as_str() == *"csv" {
        Some(SidecarFormat::Csv)
    } else if *ext.as_str() == *"xlsx" || *ext.as_str() == *"xls" || *ext.as_str() == *"xlsm" {
        Some(SidecarFormat::Workbook)
    } else if *ext.as_str() == *"txt" {
        Some(SidecarFormat::Text)
    } else {
        None
    }
}

} // verus!
