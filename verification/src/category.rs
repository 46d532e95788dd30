//! Classification of a file path into a category by its extension.
//!
//! The extension is lowercased; custom categories from the configuration are
//! consulted first (first matching entry wins), then the built-in table; an
//! unrecognized extension classifies to `Other(extension)` and a missing one
//! to `Other("unknown")`.

use vstd::prelude::*;
use vstd::string::StringExecFns;

use crate::config::TidyConfig;
use crate::text::extension_of_name;
use crate::text::extension_spec;
use crate::text::file_name_of;
use crate::text::file_name_spec;
use crate::text::lower_seq;
use crate::text::str_eq;
use crate::text::to_lowercase_ascii;

verus! {

#[derive(Debug, PartialEq, Eq)]
pub enum FileCategory {
    Document,
    Image,
    Video,
    Audio,
    Archive,
    Code,
    Executable,
    Other(String),
}

impl Clone for FileCategory {
    fn clone(&self) -> (r: Self)
        ensures
            r == *self,
    {
        match self {
            FileCategory::Document => FileCategory::Document,
            FileCategory::Image => FileCategory::Image,
            FileCategory::Video => FileCategory::Video,
            FileCategory::Audio => FileCategory::Audio,
            FileCategory::Archive => FileCategory::Archive,
            FileCategory::Code => FileCategory::Code,
            FileCategory::Executable => FileCategory::Executable,
            FileCategory::Other(s) => FileCategory::Other(s.clone()),
        }
    }
}

pub open spec fn is_document_ext(e: Seq<char>) -> bool {
    ||| e == "pdf"@
    ||| e == "doc"@
    ||| e == "docx"@
    ||| e == "txt"@
    ||| e == "rtf"@
    ||| e == "odt"@
    ||| e == "md"@
    ||| e == "xls"@
    ||| e == "xlsx"@
    ||| e == "ppt"@
    ||| e == "pptx"@
}

pub open spec fn is_image_ext(e: Seq<char>) -> bool {
    ||| e == "jpg"@
    ||| e == "jpeg"@
    ||| e == "png"@
    ||| e == "gif"@
    ||| e == "bmp"@
    ||| e == "tiff"@
    ||| e == "svg"@
    ||| e == "webp"@
}

pub open spec fn is_video_ext(e: Seq<char>) -> bool {
    ||| e == "mp4"@
    ||| e == "avi"@
    ||| e == "mov"@
    ||| e == "wmv"@
    ||| e == "flv"@
    ||| e == "mkv"@
    ||| e == "webm"@
}

pub open spec fn is_audio_ext(e: Seq<char>) -> bool {
    ||| e == "mp3"@
    ||| e == "wav"@
    ||| e == "ogg"@
    ||| e == "flac"@
    ||| e == "aac"@
    ||| e == "m4a"@
}

pub open spec fn is_archive_ext(e: Seq<char>) -> bool {
    ||| e == "zip"@
    ||| e == "rar"@
    ||| e == "7z"@
    ||| e == "tar"@
    ||| e == "gz"@
    ||| e == "bz2"@
    ||| e == "xz"@
}

pub open spec fn is_code_ext(e: Seq<char>) -> bool {
    ||| e == "rs"@
    ||| e == "py"@
    ||| e == "js"@
    ||| e == "html"@
    ||| e == "css"@
    ||| e == "java"@
    ||| e == "c"@
    ||| e == "cpp"@
    ||| e == "h"@
    ||| e == "go"@
    ||| e == "rb"@
    ||| e == "php"@
    ||| e == "sh"@
}

pub open spec fn is_executable_ext(e: Seq<char>) -> bool {
    ||| e == "exe"@
    ||| e == "msi"@
    ||| e == "app"@
    ||| e == "dmg"@
    ||| e == "deb"@
    ||| e == "rpm"@
}

/// An extension list claims `le` when it holds a string that lowercases to
/// it.
pub open spec fn list_has_ext(exts: Seq<String>, le: Seq<char>) -> bool {
    exists|k: int| 0 <= k < exts.len() && lower_seq(#[trigger] exts[k]@) == le
}

/// The name of the first custom category claiming `le`, if any.
pub open spec fn custom_category_of(cats: Seq<(String, Vec<String>)>, le: Seq<char>) -> Option<
    Seq<char>,
>
    decreases cats.len(),
{
    if cats.len() == 0 {
        None
    } else if list_has_ext(cats[0].1@, le) {
        Some(cats[0].0@)
    } else {
        custom_category_of(cats.skip(1), le)
    }
}

/// What `determine_category` returns for `path` under the custom categories
/// `cats`: the classification contract.
pub open spec fn category_ok(
    r: FileCategory,
    path: Seq<char>,
    cats: Seq<(String, Vec<String>)>,
) -> bool {
    match extension_spec(file_name_spec(path)) {
        Option::None => r matches FileCategory::Other(s) && s@ == "unknown"@,
        Option::Some(e) => {
            let le = lower_seq(e);
            match custom_category_of(cats, le) {
                Option::Some(cname) => r matches FileCategory::Other(s) && s@ == cname,
                Option::None => {
                    if is_document_ext(le) {
                        r == FileCategory::Document
                    } else if is_image_ext(le) {
                        r == FileCategory::Image
                    } else if is_video_ext(le) {
                        r == FileCategory::Video
                    } else if is_audio_ext(le) {
                        r == FileCategory::Audio
                    } else if is_archive_ext(le) {
                        r == FileCategory::Archive
                    } else if is_code_ext(le) {
                        r == FileCategory::Code
                    } else if is_executable_ext(le) {
                        r == FileCategory::Executable
                    } else {
                        r matches FileCategory::Other(s) && s@ == le
                    }
                },
            }
        },
    }
}

fn has_ext_in_list(exts: &Vec<String>, le: &str) -> (r: bool)
    ensures
        r == list_has_ext(exts@, le@),
{
    let mut i: usize = 0;
    while i < exts.len()
        invariant
            i <= exts@.len(),
            forall|k: int| 0 <= k < i ==> lower_seq(#[trigger] exts@[k]@) != le@,
        decreases exts@.len() - i,
    {
        let lowered = to_lowercase_ascii(exts[i].as_str());
        if str_eq(lowered.as_str(), le) {
            return true;
        }
        i += 1;
    }
    false
}

proof fn lemma_custom_skip(cats: Seq<(String, Vec<String>)>, le: Seq<char>, i: int)
    requires
        0 <= i <= cats.len(),
        forall|j: int| 0 <= j < i ==> !list_has_ext(#[trigger] cats[j].1@, le),
    ensures
        custom_category_of(cats, le) == custom_category_of(cats.skip(i), le),
    decreases i,
{
    if i > 0 {
        lemma_custom_skip(cats, le, i - 1);
        let tail = cats.skip(i - 1);
        assert(tail[0] == cats[i - 1]);
        assert(!list_has_ext(tail[0].1@, le));
        assert(custom_category_of(tail, le) == custom_category_of(tail.skip(1), le));
        assert(tail.skip(1) =~= cats.skip(i));
    } else {
        assert(cats.skip(0) =~= cats);
    }
}

/// Classifies `path` by its lowercased extension: custom categories first,
/// then the built-in table.
pub fn determine_category(path: &str, config: &TidyConfig) -> (r: FileCategory)
    ensures
        category_ok(r, path@, config.custom_categories@),
{
    let name = file_name_of(path);
    match extension_of_name(name.as_str()) {
        None => FileCategory::Other(String::from_str("unknown")),
        Some(e) => {
            let le = to_lowercase_ascii(e.as_str());
            let ghost cats = config.custom_categories@;
            let mut ci: usize = 0;
            while ci < config.custom_categories.len()
                invariant
                    ci <= cats.len(),
                    cats == config.custom_categories@,
                    le@ == lower_seq(e@),
                    extension_spec(file_name_spec(path@)) == Some(e@),
                    forall|j: int| 0 <= j < ci ==> !list_has_ext(#[trigger] cats[j].1@, le@),
                decreases cats.len() - ci,
            {
                let entry = &config.custom_categories[ci];
                if has_ext_in_list(&entry.1, le.as_str()) {
                    proof {
                        lemma_custom_skip(cats, le@, ci as int);
                        assert(cats.skip(ci as int)[0] == cats[ci as int]);
                    }
                    return FileCategory::Other(entry.0.clone());
                }
                ci += 1;
            }
            proof {
                lemma_custom_skip(cats, le@, cats.len() as int);
                assert(cats.skip(cats.len() as int) =~= Seq::<(String, Vec<String>)>::empty());
            }
            let ls = le.as_str();
            if str_eq(ls, "pdf") || str_eq(ls, "doc") || str_eq(ls, "docx") || str_eq(ls, "txt")
                || str_eq(ls, "rtf") || str_eq(ls, "odt") || str_eq(ls, "md") || str_eq(ls, "xls")
                || str_eq(ls, "xlsx") || str_eq(ls, "ppt") || str_eq(ls, "pptx") {
                FileCategory::Document
            } else if str_eq(ls, "jpg") || str_eq(ls, "jpeg") || str_eq(ls, "png") || str_eq(
                ls,
                "gif",
            ) || str_eq(ls, "bmp") || str_eq(ls, "tiff") || str_eq(ls, "svg") || str_eq(
                ls,
                "webp",
            ) {
                FileCategory::Image
            } else if str_eq(ls, "mp4") || str_eq(ls, "avi") || str_eq(ls, "mov") || str_eq(
                ls,
                "wmv",
            ) || str_eq(ls, "flv") || str_eq(ls, "mkv") || str_eq(ls, "webm") {
                FileCategory::Video
            } else if str_eq(ls, "mp3") || str_eq(ls, "wav") || str_eq(ls, "ogg") || str_eq(
                ls,
                "flac",
            ) || str_eq(ls, "aac") || str_eq(ls, "m4a") {
                FileCategory::Audio
            } else if str_eq(ls, "zip") || str_eq(ls, "rar") || str_eq(ls, "7z") || str_eq(
                ls,
                "tar",
            ) || str_eq(ls, "gz") || str_eq(ls, "bz2") || str_eq(ls, "xz") {
                FileCategory::Archive
            } else if str_eq(ls, "rs") || str_eq(ls, "py") || str_eq(ls, "js") || str_eq(
                ls,
                "html",
            ) || str_eq(ls, "css") || str_eq(ls, "java") || str_eq(ls, "c") || str_eq(ls, "cpp")
                || str_eq(ls, "h") || str_eq(ls, "go") || str_eq(ls, "rb") || str_eq(ls, "php")
                || str_eq(ls, "sh") {
                FileCategory::Code
            } else if str_eq(ls, "exe") || str_eq(ls, "msi") || str_eq(ls, "app") || str_eq(
                ls,
                "dmg",
            ) || str_eq(ls, "deb") || str_eq(ls, "rpm") {
                FileCategory::Executable
            } else {
                FileCategory::Other(le)
            }
        },
    }
}

} // verus!
