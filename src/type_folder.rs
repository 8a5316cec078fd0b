//! The type folder of a file, from its extension.
use vstd::prelude::*;
use vstd::string::*;
use crate::text::{chars_of, lower_of, same_text, to_lower};

verus! {

/// The second level of the destination tree.
#[derive(Clone, Copy, Debug, PartialEq, Eq, Structural)]
pub enum TypeFolder {
    Pdfs,
    Slides,
    Documents,
    Images,
    Archives,
    Installers,
    Videos,
    Notes,
    Data,
    Other,
}

impl TypeFolder {
    pub open spec fn name_spec(&self) -> Seq<char> {
        match self {
            TypeFolder::Pdfs => "PDFs"@,
            TypeFolder::Slides => "Slides"@,
            TypeFolder::Documents => "Documents"@,
            TypeFolder::Images => "Images"@,
            TypeFolder::Archives => "Archives"@,
            TypeFolder::Installers => "Installers"@,
            TypeFolder::Videos => "Videos"@,
            TypeFolder::Notes => "Notes"@,
            TypeFolder::Data => "Data"@,
            TypeFolder::Other => "Other"@,
        }
    }

    /// The folder's name in the destination tree.
    pub fn name(&self) -> (r: &'static str)
        ensures
            r@ == self.name_spec(),
    {
        match self {
            TypeFolder::Pdfs => "PDFs",
            TypeFolder::Slides => "Slides",
            TypeFolder::Documents => "Documents",
            TypeFolder::Images => "Images",
            TypeFolder::Archives => "Archives",
            TypeFolder::Installers => "Installers",
            TypeFolder::Videos => "Videos",
            TypeFolder::Notes => "Notes",
            TypeFolder::Data => "Data",
            TypeFolder::Other => "Other",
        }
    }
}

/// The folder for a lowercase extension.
pub open spec fn folder_of_ext(e: Seq<char>) -> TypeFolder {
    if e == "pdf"@ {
        TypeFolder::Pdfs
    } else if e == "ppt"@ || e == "pptx"@ {
        TypeFolder::Slides
    } else if e == "doc"@ || e == "docx"@ {
        TypeFolder::Documents
    } else if e == "png"@ || e == "jpg"@ || e == "jpeg"@ || e == "gif"@ || e == "webp"@ {
        TypeFolder::Images
    } else if e == "zip"@ || e == "rar"@ || e == "7z"@ || e == "tar"@ || e == "gz"@ {
        TypeFolder::Archives
    } else if e == "pkg"@ {
        TypeFolder::Installers
    } else if e == "mov"@ || e == "mp4"@ || e == "mkv"@ {
        TypeFolder::Videos
    } else if e == "txt"@ || e == "md"@ {
        TypeFolder::Notes
    } else if e == "csv"@ || e == "xlsx"@ {
        TypeFolder::Data
    } else {
        TypeFolder::Other
    }
}

/// The index of the last `.` in `s`, or -1 where there is none.
pub open spec fn last_dot(s: Seq<char>) -> int
    decreases s.len(),
{
    if s.len() == 0 {
        -1
    } else if s.last() == '.' {
        s.len() - 1
    } else {
        last_dot(s.drop_last())
    }
}

/// A name has an extension where its last dot is not its first character and
/// the name is not `..`.
pub open spec fn has_extension(name: Seq<char>) -> bool {
    last_dot(name) > 0 && name != seq!['.', '.']
}

/// The text after the last dot, where the name has an extension.
pub open spec fn extension_of(name: Seq<char>) -> Option<Seq<char>> {
    if has_extension(name) {
        Some(name.subrange(last_dot(name) + 1, name.len() as int))
    } else {
        None
    }
}

/// The name without its extension and the dot before it.
pub open spec fn stem_of(name: Seq<char>) -> Seq<char> {
    if has_extension(name) {
        name.subrange(0, last_dot(name))
    } else {
        name
    }
}

/// The type folder of a file name: its extension lowercased and looked up;
/// no extension gives `Other`.
pub open spec fn type_of_name(name: Seq<char>) -> TypeFolder {
    match extension_of(name) {
        Some(e) => folder_of_ext(lower_of(e)),
        None => TypeFolder::Other,
    }
}

pub proof fn lemma_last_dot(s: Seq<char>)
    ensures
        -1 <= last_dot(s) < s.len(),
        last_dot(s) >= 0 ==> s[last_dot(s)] == '.',
        forall|j: int| last_dot(s) < j < s.len() ==> s[j] != '.',
    decreases s.len(),
{
    if s.len() > 0 && s.last() != '.' {
        lemma_last_dot(s.drop_last());
        assert forall|j: int| last_dot(s) < j < s.len() implies s[j] != '.' by {
            if j < s.len() - 1 {
                assert(s[j] == s.drop_last()[j]);
            }
        }
    }
}

/// The position of the last dot of `cs`, as `last_dot` gives it.
pub fn find_last_dot(cs: &Vec<char>) -> (r: Option<usize>)
    ensures
        match r {
            Some(d) => last_dot(cs@) == d as int && d < cs@.len(),
            None => last_dot(cs@) == -1,
        },
{
    let mut k = cs.len();
    assert(cs@.subrange(0, k as int) =~= cs@);
    while k > 0 && cs[k - 1] != '.'
        invariant
            k <= cs@.len(),
            last_dot(cs@) == last_dot(cs@.subrange(0, k as int)),
        decreases k,
    {
        assert(cs@.subrange(0, k as int).drop_last() =~= cs@.subrange(0, k - 1));
        k = k - 1;
    }
    if k == 0 {
        assert(cs@.subrange(0, 0).len() == 0);
        None
    } else {
        Some(k - 1)
    }
}

fn is_dot_dot(cs: &Vec<char>) -> (r: bool)
    ensures
        r == (cs@ == seq!['.', '.']),
{
    if cs.len() == 2 && cs[0] == '.' && cs[1] == '.' {
        assert(cs@ =~= seq!['.', '.']);
        true
    } else {
        false
    }
}

/// The position of the dot before the extension, where `name` has one.
pub fn extension_dot(cs: &Vec<char>) -> (r: Option<usize>)
    ensures
        r is Some <==> has_extension(cs@),
        r is Some ==> r->Some_0 as int == last_dot(cs@) && r->Some_0 < cs@.len(),
{
    match find_last_dot(cs) {
        Some(d) => if d > 0 && !is_dot_dot(cs) {
            Some(d)
        } else {
            None
        },
        None => None,
    }
}

/// The folder of a lowercase extension.
pub fn folder_for_extension(e: &str) -> (r: TypeFolder)
    ensures
        r == folder_of_ext(e@),
{
    if same_text(e, "pdf") {
        TypeFolder::Pdfs
    } else if same_text(e, "ppt") || same_text(e, "pptx") {
        TypeFolder::Slides
    } else if same_text(e, "doc") || same_text(e, "docx") {
        TypeFolder::Documents
    } else if same_text(e, "png") || same_text(e, "jpg") || same_text(e, "jpeg") || same_text(
        e,
        "gif",
    ) || same_text(e, "webp") {
        TypeFolder::Images
    } else if same_text(e, "zip") || same_text(e, "rar") || same_text(e, "7z") || same_text(
        e,
        "tar",
    ) || same_text(e, "gz") {
        TypeFolder::Archives
    } else if same_text(e, "pkg") {
        TypeFolder::Installers
    } else if same_text(e, "mov") || same_text(e, "mp4") || same_text(e, "mkv") {
        TypeFolder::Videos
    } else if same_text(e, "txt") || same_text(e, "md") {
        TypeFolder::Notes
    } else if same_text(e, "csv") || same_text(e, "xlsx") {
        TypeFolder::Data
    } else {
        TypeFolder::Other
    }
}

/// The type folder of a file name, from its extension with case ignored.
pub fn file_type_folder(filename: &str) -> (r: TypeFolder)
    ensures
        r == type_of_name(filename@),
{
    let cs = chars_of(filename);
    proof {
        lemma_last_dot(cs@);
    }
    match extension_dot(&cs) {
        Some(d) => {
            let n = cs.len();
            let ext = filename.substring_char(d + 1, n);
            let lowered = to_lower(ext);
            folder_for_extension(lowered.as_str())
        },
        None => TypeFolder::Other,
    }
}

/// A file name without an extension goes to `Other`, whatever its case.
pub proof fn law_no_extension_is_other(name: Seq<char>)
    requires
        extension_of(name) is None,
    ensures
        type_of_name(name) == TypeFolder::Other,
{
}

/// Case does not matter: two names whose extensions have the same lowercase
/// form get the same folder.
pub proof fn law_extension_ignores_case(a: Seq<char>, b: Seq<char>, ea: Seq<char>, eb: Seq<char>)
    requires
        extension_of(a) == Some(ea),
        extension_of(b) == Some(eb),
        lower_of(ea) == lower_of(eb),
    ensures
        type_of_name(a) == type_of_name(b),
{
}

} // verus!
