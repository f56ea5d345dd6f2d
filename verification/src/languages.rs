//! Languages by file name, and which files and directories are indexed.

use crate::split::{
    among, law_fields_hold_no_separator, law_separators_part_fields, split, split_at_any,
};
use crate::text::{chars_of, is_one_of, same_text, str_views, text_of, texts};
use vstd::prelude::*;
use vstd::slice::slice_subrange;
use vstd::string::*;

verus! {

// ── Paths ──────────────────────────────────────────────────────────────────
/// The last part of a path that is neither empty nor `.`.
pub open spec fn last_part(parts: Seq<Seq<char>>) -> Option<Seq<char>>
    decreases parts.len(),
{
    if parts.len() == 0 {
        None
    } else if parts.last().len() == 0 || parts.last() == "."@ {
        last_part(parts.drop_last())
    } else {
        Some(parts.last())
    }
}

/// The name of the file that a path ends in, with `/` between directories. A
/// path that ends in `..` has none.
pub open spec fn file_name(path: Seq<char>) -> Option<Seq<char>> {
    match last_part(split(path, among(seq!['/']))) {
        Some(n) => if n == ".."@ {
            None
        } else {
            Some(n)
        },
        None => None,
    }
}

/// The last place of a character before `n`, or -1 if there is none.
pub open spec fn last_place(s: Seq<char>, c: char, n: nat) -> int
    decreases n,
{
    if n == 0 {
        -1
    } else if s[n - 1] == c {
        n - 1
    } else {
        last_place(s, c, (n - 1) as nat)
    }
}

/// What comes after the last dot of a file's name. A name that has no dot but
/// at its start has no extension.
pub open spec fn extension(path: Seq<char>) -> Option<Seq<char>> {
    match file_name(path) {
        Some(n) => {
            let dot = last_place(n, '.', n.len());
            if dot <= 0 {
                None
            } else {
                Some(n.skip(dot + 1))
            }
        },
        None => None,
    }
}

/// The last place of a character, if there is one.
pub fn find_last(s: &[char], c: char) -> (r: Option<usize>)
    ensures
        match r {
            Some(i) => i == last_place(s@, c, s@.len()) && i < s@.len() && s@[i as int] == c,
            None => last_place(s@, c, s@.len()) == -1,
        },
{
    let mut n: usize = s.len();
    while n > 0
        invariant
            n <= s@.len(),
            last_place(s@, c, n as nat) == last_place(s@, c, s@.len()),
        decreases n,
    {
        if s[n - 1] == c {
            return Some(n - 1);
        }
        n -= 1;
    }
    None
}

fn extension_of(path: &str) -> (r: Option<String>)
    ensures
        match r {
            Some(e) => extension(path@) == Some(e@),
            None => extension(path@) is None,
        },
{
    let chars = chars_of(path);
    let slash: [char; 1] = ['/'];
    assert(slash@ =~= seq!['/']);
    let parts = split_at_any(chars.as_slice(), slash.as_slice());
    let ghost all = texts(parts@);
    let mut n: usize = parts.len();
    assert(all.take(n as int) =~= all);
    while n > 0 && (parts[n - 1].as_str().is_empty() || same_text(parts[n - 1].as_str(), "."))
        invariant
            n <= parts@.len(),
            all == texts(parts@),
            last_part(all.take(n as int)) == last_part(all),
        decreases n,
    {
        proof {
            assert(all.take(n as int).drop_last() =~= all.take(n - 1));
            assert(all.take(n as int).last() == parts@[n - 1]@);
        }
        n -= 1;
    }
    if n == 0 {
        return None;
    }
    assert(all.take(n as int).last() == parts@[n - 1]@);
    let name = chars_of(parts[n - 1].as_str());
    if same_text(parts[n - 1].as_str(), "..") {
        return None;
    }
    match find_last(name.as_slice(), '.') {
        Some(dot) => {
            if dot == 0 {
                return None;
            }
            let len: usize = name.len();
            let rest = slice_subrange(name.as_slice(), dot + 1, len);
            assert(rest@ =~= name@.skip(dot + 1));
            Some(text_of(rest))
        },
        None => None,
    }
}

// ── Languages ──────────────────────────────────────────────────────────────
/// The language of files with an extension.
pub open spec fn language_of(ext: Option<Seq<char>>) -> Seq<char> {
    match ext {
        Some(e) => if e == "rs"@ {
            "rust"@
        } else if e == "ts"@ || e == "tsx"@ {
            "typescript"@
        } else if e == "js"@ || e == "jsx"@ {
            "javascript"@
        } else if e == "py"@ {
            "python"@
        } else if e == "go"@ {
            "go"@
        } else if e == "java"@ {
            "java"@
        } else {
            "unknown"@
        },
        None => "unknown"@,
    }
}

/// The language of a file.
pub fn detect_language(path: &str) -> (r: String)
    ensures
        r@ == language_of(extension(path@)),
{
    match extension_of(path) {
        Some(ext) => {
            let e = ext.as_str();
            if same_text(e, "rs") {
                "rust".to_owned()
            } else if same_text(e, "ts") || same_text(e, "tsx") {
                "typescript".to_owned()
            } else if same_text(e, "js") || same_text(e, "jsx") {
                "javascript".to_owned()
            } else if same_text(e, "py") {
                "python".to_owned()
            } else if same_text(e, "go") {
                "go".to_owned()
            } else if same_text(e, "java") {
                "java".to_owned()
            } else {
                "unknown".to_owned()
            }
        },
        None => "unknown".to_owned(),
    }
}

/// The extensions of files that are indexed.
pub open spec fn indexed_extensions() -> Seq<Seq<char>> {
    seq![
        "rs"@, "ts"@, "tsx"@, "js"@, "jsx"@, "py"@, "go"@, "java"@, "rb"@, "c"@, "cpp"@, "h"@,
        "hpp"@, "cs"@, "swift"@, "kt"@, "scala"@, "md"@, "txt"@, "toml"@, "yaml"@, "yml"@, "json"@,
        "xml"@, "html"@, "css"@, "scss"@, "sql"@, "sh"@,
    ]
}

/// A file is indexed: its extension is known.
pub open spec fn is_indexed(path: Seq<char>) -> bool {
    match extension(path) {
        Some(e) => indexed_extensions().contains(e),
        None => false,
    }
}

/// Whether a file is indexed.
pub fn should_index_file(path: &str) -> (r: bool)
    ensures
        r == is_indexed(path@),
{
    let known: [&str; 29] = [
        "rs", "ts", "tsx", "js", "jsx", "py", "go", "java", "rb", "c", "cpp", "h", "hpp", "cs",
        "swift", "kt", "scala", "md", "txt", "toml", "yaml", "yml", "json", "xml", "html", "css",
        "scss", "sql", "sh",
    ];
    assert(str_views(known@) =~= indexed_extensions());
    match extension_of(path) {
        Some(ext) => is_one_of(ext.as_str(), known.as_slice()),
        None => false,
    }
}

/// The directories that are not indexed.
pub open spec fn skipped_directories() -> Seq<Seq<char>> {
    seq![
        "node_modules"@, "target"@, ".git"@, ".svn"@, ".hg"@, "dist"@, "build"@, "__pycache__"@,
        ".tox"@, "vendor"@, ".idea"@, ".vscode"@, ".vs"@,
    ]
}

/// Whether a directory of this name is not indexed.
pub fn should_skip_dir(name: &str) -> (r: bool)
    ensures
        r == skipped_directories().contains(name@),
{
    let known: [&str; 13] = [
        "node_modules", "target", ".git", ".svn", ".hg", "dist", "build", "__pycache__", ".tox",
        "vendor", ".idea", ".vscode", ".vs",
    ];
    assert(str_views(known@) =~= skipped_directories());
    is_one_of(name, known.as_slice())
}

/// What to do with an entry of a directory.
#[derive(Debug, Clone, Copy, PartialEq, Eq, Structural)]
pub enum Visit {
    /// Pass it over.
    Skip,
    /// Look into the directory.
    Descend,
    /// Index the file.
    Index,
}

/// What to do with an entry: hidden entries, directories that hold no sources
/// and files that are no sources are passed over.
pub open spec fn visit_of(name: Seq<char>, path: Seq<char>, is_dir: bool, is_file: bool) -> Visit {
    if name.len() > 0 && name[0] == '.' {
        Visit::Skip
    } else if is_dir {
        if skipped_directories().contains(name) {
            Visit::Skip
        } else {
            Visit::Descend
        }
    } else if is_file && is_indexed(path) {
        Visit::Index
    } else {
        Visit::Skip
    }
}

/// What to do with the entry `name` of a directory, which has this path.
pub fn visit_entry(name: &str, path: &str, is_dir: bool, is_file: bool) -> (r: Visit)
    ensures
        r == visit_of(name@, path@, is_dir, is_file),
{
    let c = chars_of(name);
    if c.len() > 0 && c[0] == '.' {
        Visit::Skip
    } else if is_dir {
        if should_skip_dir(name) {
            Visit::Skip
        } else {
            Visit::Descend
        }
    } else if is_file && should_index_file(path) {
        Visit::Index
    } else {
        Visit::Skip
    }
}

// ── Laws ───────────────────────────────────────────────────────────────────
/// The extension of a file is what follows the last dot of its name, whatever
/// directory it is in.
pub proof fn law_extensions_follow_the_last_dot(
    dir: Seq<char>,
    stem: Seq<char>,
    ext: Seq<char>,
)
    requires
        stem.len() > 0,
        !stem.contains('/'),
        !ext.contains('/'),
        !ext.contains('.'),
        ext.len() > 0,
    ensures
        extension(stem.push('.') + ext) == Some(ext),
        extension(dir.push('/') + (stem.push('.') + ext)) == Some(ext),
{
    let name = stem.push('.') + ext;
    let stop = among(seq!['/']);
    assert forall|i: int| 0 <= i < name.len() implies !stop(#[trigger] name[i]) by {
        if i < stem.len() {
            assert(stem.contains(stem[i]));
        } else if i > stem.len() {
            assert(ext.contains(ext[i - stem.len() - 1]));
        }
    }
    law_fields_hold_no_separator(name, stop);
    assert(seq!['/'][0] == '/');
    assert(seq!['/'].contains('/'));
    law_separators_part_fields(dir, '/', name, stop);
    reveal_strlit(".");
    reveal_strlit("..");
    let parts = split(dir, stop) + seq![name];
    assert(parts.last() == name);
    assert(seq![name].last() == name);
    assert(name != "."@);
    if name == ".."@ {
        assert(name[name.len() - 1] == ext.last());
        assert(ext.contains(ext.last()));
    }
    lemma_last_place(name, '.', name.len(), stem.len() as int);
    assert(name.skip((stem.len() + 1) as int) =~= ext);
}

proof fn lemma_last_place(s: Seq<char>, c: char, n: nat, k: int)
    requires
        0 <= k < n <= s.len(),
        s[k] == c,
        forall|i: int| k < i < n ==> s[i] != c,
    ensures
        last_place(s, c, n) == k,
    decreases n,
{
    if k < n - 1 {
        lemma_last_place(s, c, (n - 1) as nat, k);
    }
}

/// A name without a dot, or with none but at its start, has no extension.
pub proof fn law_names_without_a_dot_have_no_extension(name: Seq<char>)
    requires
        !name.contains('/'),
        forall|i: int| 0 < i < name.len() ==> #[trigger] name[i] != '.',
    ensures
        extension(name) is None,
{
    let stop = among(seq!['/']);
    assert forall|i: int| 0 <= i < name.len() implies !stop(#[trigger] name[i]) by {
        assert(name.contains(name[i]));
    }
    law_fields_hold_no_separator(name, stop);
    lemma_no_last_place(name, name.len());
    let parts = seq![name];
    assert(parts.last() == name);
    if name.len() == 0 || name == "."@ {
        assert(parts.drop_last() =~= Seq::<Seq<char>>::empty());
        assert(last_part(parts.drop_last()) is None);
    }
}

proof fn lemma_no_last_place(s: Seq<char>, n: nat)
    requires
        n <= s.len(),
        forall|i: int| 0 < i < s.len() ==> #[trigger] s[i] != '.',
    ensures
        last_place(s, '.', n) <= 0,
    decreases n,
{
    if n > 0 {
        lemma_no_last_place(s, (n - 1) as nat);
    }
}

/// What is hidden is passed over, and so are directories without sources; a file is indexed
/// only if it is a file with a known extension.
pub proof fn law_sources_are_visited(
    name: Seq<char>,
    path: Seq<char>,
    is_dir: bool,
    is_file: bool,
)
    ensures
        ({
            let v = visit_of(name, path, is_dir, is_file);
            let hidden = name.len() > 0 && name[0] == '.';
            &&& hidden ==> v is Skip
            &&& v is Descend <==> !hidden && is_dir && !skipped_directories().contains(name)
            &&& v is Index <==> !hidden && !is_dir && is_file && is_indexed(path)
        }),
        name == "node_modules"@ || name == "target"@ || name == "dist"@ || name == "build"@ || name
            == "vendor"@ || name == "__pycache__"@ || name == ".git"@ ==> !(visit_of(
            name,
            path,
            true,
            is_file,
        ) is Descend),
        is_indexed(path) ==> extension(path) is Some,
{
    let t = skipped_directories();
    assert(t[0] == "node_modules"@ && t[1] == "target"@ && t[2] == ".git"@ && t[5] == "dist"@ && t[6]
        == "build"@ && t[7] == "__pycache__"@ && t[9] == "vendor"@);
}

/// A file whose language is known is indexed.
pub proof fn law_known_languages_are_indexed(path: Seq<char>)
    ensures
        language_of(extension(path)) != "unknown"@ ==> is_indexed(path),
        extension(path) is None ==> language_of(extension(path)) == "unknown"@ && !is_indexed(path),
{
    let t = indexed_extensions();
    assert(t[0] == "rs"@ && t[1] == "ts"@ && t[2] == "tsx"@ && t[3] == "js"@ && t[4] == "jsx"@ && t[5]
        == "py"@ && t[6] == "go"@ && t[7] == "java"@);
}

} // verus!
