//! Destination planning for the organizer: the subfolder each record moves
//! to under a scheme, the destination path, and the deterministic
//! collision-avoidance rename.
//!
//! Planning is pure; the filesystem moves themselves happen outside the
//! library. Target directories are passed without a trailing separator.

use vstd::prelude::*;
use vstd::string::StringExecFns;

use crate::category::FileCategory;
use crate::dates::date_folder;
use crate::dates::month_folder_ok;
use crate::dates::shifted_day;
use crate::dates::TS_LIMIT;
use crate::scan::FileInfo;
use crate::text::dec_rep;
use crate::text::extension_of_name;
use crate::text::extension_spec;
use crate::text::file_name_of;
use crate::text::file_name_spec;
use crate::text::file_stem_of;
use crate::text::push_decimal;
use crate::text::stem_spec;
use crate::text::str_eq;

verus! {

/// The folder the type scheme assigns to a category: unknown-extension
/// files go to `Other`, known but uncategorized extensions to
/// `Miscellaneous`.
pub open spec fn type_folder_of(c: FileCategory) -> Seq<char> {
    match c {
        FileCategory::Document => "Documents"@,
        FileCategory::Image => "Images"@,
        FileCategory::Video => "Videos"@,
        FileCategory::Audio => "Audio"@,
        FileCategory::Archive => "Archives"@,
        FileCategory::Code => "Code"@,
        FileCategory::Executable => "Executables"@,
        FileCategory::Other(s) => if s@ == "unknown"@ {
            "Other"@
        } else {
            "Miscellaneous"@
        },
    }
}

/// The folder of the type scheme, as a fresh string.
pub fn type_folder(c: &FileCategory) -> (r: String)
    ensures
        r@ == type_folder_of(*c),
{
    match c {
        FileCategory::Document => String::from_str("Documents"),
        FileCategory::Image => String::from_str("Images"),
        FileCategory::Video => String::from_str("Videos"),
        FileCategory::Audio => String::from_str("Audio"),
        FileCategory::Archive => String::from_str("Archives"),
        FileCategory::Code => String::from_str("Code"),
        FileCategory::Executable => String::from_str("Executables"),
        FileCategory::Other(s) => {
            if str_eq(s.as_str(), "unknown") {
                String::from_str("Other")
            } else {
                String::from_str("Miscellaneous")
            }
        },
    }
}

/// The folder the extension scheme assigns to a path: the raw extension, or
/// `no_extension`.
pub open spec fn ext_folder_of(path: Seq<char>) -> Seq<char> {
    match extension_spec(file_name_spec(path)) {
        Some(e) => e,
        None => "no_extension"@,
    }
}

/// The folder of the extension scheme, as a fresh string.
pub fn ext_folder(path: &str) -> (r: String)
    ensures
        r@ == ext_folder_of(path@),
{
    let name = file_name_of(path);
    match extension_of_name(name.as_str()) {
        Some(e) => e,
        None => String::from_str("no_extension"),
    }
}

/// What the subfolder for `file` under `scheme` may be: exact for the type,
/// extension and fallback schemes; for the date scheme, the `YYYY-MM` of the
/// modification time under some in-range local offset.
pub open spec fn subfolder_ok(f: Seq<char>, file: FileInfo, scheme: Seq<char>) -> bool {
    if scheme == "type"@ {
        f == type_folder_of(file.category)
    } else if scheme == "date"@ {
        exists|o: int|
            -86400 < o < 86400 && #[trigger] month_folder_ok(
                f,
                shifted_day(file.last_modified as int, o),
            )
    } else if scheme == "ext"@ {
        f == ext_folder_of(file.path@)
    } else {
        f == "Unsorted"@
    }
}

/// The subfolder `file` is destined for under the scheme `organization_type`
/// (`type`, `date` or `ext`; anything else falls back to `Unsorted`).
pub fn subfolder_for(file: &FileInfo, organization_type: &str) -> (r: String)
    requires
        organization_type@ == "date"@ ==> file.last_modified < TS_LIMIT - 86400,
    ensures
        subfolder_ok(r@, *file, organization_type@),
{
    if str_eq(organization_type, "type") {
        type_folder(&file.category)
    } else if str_eq(organization_type, "date") {
        date_folder(file.last_modified)
    } else if str_eq(organization_type, "ext") {
        ext_folder(file.path.as_str())
    } else {
        String::from_str("Unsorted")
    }
}

/// The collision-avoidance name: the current epoch second is inserted
/// between stem and extension (`stem_<now>.ext`). The renamed destination is
/// not itself re-checked for a collision; two collisions within the same
/// second can still collide.
pub fn collision_name(file_name: &str, now: u64) -> (r: String)
    ensures
        r@ == stem_spec(file_name@) + seq!['_'] + dec_rep(now as int) + (match extension_spec(
            file_name@,
        ) {
            Some(e) => seq!['.'] + e,
            None => Seq::<char>::empty(),
        }),
{
    let mut s = file_stem_of(file_name);
    s.push('_');
    push_decimal(&mut s, now);
    match extension_of_name(file_name) {
        Some(e) => {
            s.push('.');
            s.append(e.as_str());
            proof {
                assert(s@ =~= stem_spec(file_name@) + seq!['_'] + dec_rep(now as int) + (seq!['.']
                    + e@));
            }
        },
        None => {
            proof {
                assert(s@ =~= stem_spec(file_name@) + seq!['_'] + dec_rep(now as int));
                assert(s@ =~= stem_spec(file_name@) + seq!['_'] + dec_rep(now as int)
                    + Seq::<char>::empty());
            }
        },
    }
    s
}

/// One planned move: where the file comes from, the subfolder and directory
/// it goes to, and its name there.
#[derive(Debug)]
pub struct MovePlan {
    pub source: String,
    pub subfolder: String,
    pub dest_dir: String,
    pub file_name: String,
}

/// Plans one move per record under the given scheme: the destination
/// directory is `target_dir/<subfolder>` and the file keeps its name; name
/// collisions are resolved at move time with `collision_name`.
pub fn plan_moves(files: &Vec<FileInfo>, target_dir: &str, organization_type: &str) -> (plans: Vec<
    MovePlan,
>)
    requires
        organization_type@ == "date"@ ==> forall|k: int|
            0 <= k < files@.len() ==> (#[trigger] files@[k]).last_modified < TS_LIMIT - 86400,
    ensures
        plans@.len() == files@.len(),
        forall|k: int|
            0 <= k < plans@.len() ==> {
                let p = #[trigger] plans@[k];
                &&& p.source@ == files@[k].path@
                &&& p.file_name@ == file_name_spec(files@[k].path@)
                &&& subfolder_ok(p.subfolder@, files@[k], organization_type@)
                &&& p.dest_dir@ == target_dir@ + seq!['/'] + p.subfolder@
            },
{
    let mut plans: Vec<MovePlan> = Vec::new();
    let n = files.len();
    let mut i: usize = 0;
    while i < n
        invariant
            n == files@.len(),
            i <= n,
            plans@.len() == i,
            organization_type@ == "date"@ ==> forall|k: int|
                0 <= k < files@.len() ==> (#[trigger] files@[k]).last_modified < TS_LIMIT - 86400,
            forall|k: int|
                0 <= k < i ==> {
                    let p = #[trigger] plans@[k];
                    &&& p.source@ == files@[k].path@
                    &&& p.file_name@ == file_name_spec(files@[k].path@)
                    &&& subfolder_ok(p.subfolder@, files@[k], organization_type@)
                    &&& p.dest_dir@ == target_dir@ + seq!['/'] + p.subfolder@
                },
        decreases n - i,
    {
        let file = &files[i];
        let subfolder = subfolder_for(file, organization_type);
        let mut dest_dir = target_dir.to_owned();
        dest_dir.push('/');
        dest_dir.append(subfolder.as_str());
        proof {
            assert(dest_dir@ =~= target_dir@ + seq!['/'] + subfolder@);
        }
        let file_name = file_name_of(file.path.as_str());
        plans.push(
            MovePlan { source: file.path.clone(), subfolder, dest_dir, file_name },
        );
        i += 1;
    }
    plans
}

} // verus!
