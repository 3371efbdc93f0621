//! Configuration values of the host application: watched file
//! extensions, watcher debounce, search matcher, window and preview
//! settings. Loading them from disk is the shell's business; the types
//! and the extension matching live here.

use vstd::prelude::*;

use crate::serializer::bytes_eq;
use crate::wire::{ascii, push_ascii};

verus! {

/// Where the file name of a path begins: right after its last slash.
pub open spec fn name_start(p: Seq<u8>) -> int
    decreases p.len(),
{
    if p.len() == 0 {
        0
    } else if p.last() == 47 {
        p.len() as int
    } else {
        name_start(p.drop_last())
    }
}

/// The position of the last dot of a file name, or -1 when it has none.
pub open spec fn last_dot(name: Seq<u8>) -> int
    decreases name.len(),
{
    if name.len() == 0 {
        -1
    } else if name.last() == 46 {
        name.len() - 1
    } else {
        last_dot(name.drop_last())
    }
}

/// The extension of a path: what follows the last dot of its file
/// name, provided that dot is not the name's first byte.
pub open spec fn ext_of(p: Seq<u8>) -> Option<Seq<u8>> {
    let name = p.skip(name_start(p));
    let d = last_dot(name);
    if d > 0 {
        Option::Some(name.skip(d + 1))
    } else {
        Option::None
    }
}

/// Whether one of the listed extensions is `e`.
pub open spec fn has_ext(exts: Seq<Vec<u8>>, e: Seq<u8>) -> bool {
    exists|i: int| 0 <= i < exts.len() && exts[i]@ == e
}

proof fn lemma_name_start_bounds(p: Seq<u8>)
    ensures
        0 <= name_start(p) <= p.len(),
    decreases p.len(),
{
    if p.len() == 0 {
    } else if p.last() == 47 {
    } else {
        lemma_name_start_bounds(p.drop_last());
    }
}

/// The file name begins right after a slash that no later slash
/// follows.
proof fn lemma_name_start_at(p: Seq<u8>, i: int)
    requires
        0 <= i <= p.len(),
        i == 0 || p[i - 1] == 47,
        forall|j: int| i <= j < p.len() ==> p[j] != 47,
    ensures
        name_start(p) == i,
    decreases p.len(),
{
    if p.len() == i {
    } else {
        assert(p.last() != 47);
        lemma_name_start_at(p.drop_last(), i);
    }
}

/// No slash at or after `k` puts the file name's start at or before it.
proof fn lemma_name_start_upper(p: Seq<u8>, k: int)
    requires
        0 <= k <= p.len(),
        forall|j: int| k <= j < p.len() ==> p[j] != 47,
    ensures
        name_start(p) <= k,
    decreases p.len(),
{
    if p.len() == k {
        lemma_name_start_bounds(p);
    } else {
        assert(p.last() != 47);
        lemma_name_start_upper(p.drop_last(), k);
    }
}

/// A dot that no later dot follows is the last one.
proof fn lemma_last_dot_at(name: Seq<u8>, d: int)
    requires
        0 <= d < name.len(),
        name[d] == 46,
        forall|j: int| d < j < name.len() ==> name[j] != 46,
    ensures
        last_dot(name) == d,
    decreases name.len(),
{
    if name.len() == d + 1 {
    } else {
        assert(name.last() != 46);
        lemma_last_dot_at(name.drop_last(), d);
    }
}

/// A name without dots has no last one.
proof fn lemma_last_dot_none(name: Seq<u8>)
    requires
        forall|j: int| 0 <= j < name.len() ==> name[j] != 46,
    ensures
        last_dot(name) == -1,
    decreases name.len(),
{
    if name.len() == 0 {
    } else {
        lemma_last_dot_none(name.drop_last());
    }
}

/// The markdown file extensions the watcher reacts to.
pub struct FileExtensions(pub Vec<Vec<u8>>);

/// The stock extension list: `md`, `mkd`, `markdown`.
pub open spec fn is_default_extensions(fe: &FileExtensions) -> bool {
    fe.0@.len() == 3 && fe.0@[0]@ == ascii("md"@) && fe.0@[1]@ == ascii("mkd"@) && fe.0@[2]@
        == ascii("markdown"@)
}

impl Default for FileExtensions {
    fn default() -> (r: Self)
        ensures
            is_default_extensions(&r),
    {
        let mut md: Vec<u8> = Vec::new();
        let mut mkd: Vec<u8> = Vec::new();
        let mut markdown: Vec<u8> = Vec::new();
        proof {
            reveal_strlit("md");
            reveal_strlit("mkd");
            reveal_strlit("markdown");
        }
        push_ascii(&mut md, "md");
        push_ascii(&mut mkd, "mkd");
        push_ascii(&mut markdown, "markdown");
        let mut exts: Vec<Vec<u8>> = Vec::new();
        exts.push(md);
        exts.push(mkd);
        exts.push(markdown);
        FileExtensions(exts)
    }
}

impl FileExtensions {
    /// Whether the path's extension is one of the listed ones.
    pub fn matches(&self, path: &[u8]) -> (r: bool)
        ensures
            r == match ext_of(path@) {
                Option::Some(e) => has_ext(self.0@, e),
                Option::None => false,
            },
    {
        let mut i: usize = path.len();
        while i > 0
            invariant
                i <= path@.len(),
                forall|j: int| i <= j < path@.len() ==> path@[j] != 46 && path@[j] != 47,
            decreases i,
        {
            let b = path[i - 1];
            if b == 47 {
                proof {
                    lemma_name_start_at(path@, i as int);
                    assert forall|j: int|
                        0 <= j < path@.skip(i as int).len() implies path@.skip(i as int)[j]
                        != 46 by {
                        assert(path@.skip(i as int)[j] == path@[j + i]);
                    }
                    lemma_last_dot_none(path@.skip(i as int));
                }
                return false;
            }
            if b == 46 {
                if i - 1 == 0 {
                    proof {
                        lemma_name_start_at(path@, 0);
                        assert(path@.skip(0) =~= path@);
                        lemma_last_dot_at(path@, 0);
                    }
                    return false;
                }
                if path[i - 2] == 47 {
                    proof {
                        lemma_name_start_at(path@, i as int - 1);
                        let name = path@.skip(i as int - 1);
                        assert(name[0] == 46);
                        assert forall|j: int| 0 < j < name.len() implies name[j] != 46 by {
                            assert(name[j] == path@[j + i - 1]);
                        }
                        lemma_last_dot_at(name, 0);
                    }
                    return false;
                }
                proof {
                    lemma_name_start_upper(path@, i as int - 2);
                    lemma_name_start_bounds(path@);
                    let ns = name_start(path@);
                    let name = path@.skip(ns);
                    assert(name[i - 1 - ns] == path@[i as int - 1]);
                    assert forall|j: int| i - 1 - ns < j < name.len() implies name[j] != 46 by {
                        assert(name[j] == path@[j + ns]);
                    }
                    lemma_last_dot_at(name, i - 1 - ns);
                    assert(name.skip(i - ns) =~= path@.skip(i as int));
                }
                let e = vstd::slice::slice_subrange(path, i, path.len());
                let mut k: usize = 0;
                while k < self.0.len()
                    invariant
                        k <= self.0@.len(),
                        forall|j: int| 0 <= j < k ==> self.0@[j]@ != e@,
                        e@ == path@.skip(i as int),
                        ext_of(path@) == Option::Some(e@),
                    decreases self.0@.len() - k,
                {
                    let entry: &Vec<u8> = vstd::slice::slice_index_get(self.0.as_slice(), k);
                    if bytes_eq(entry.as_slice(), e) {
                        return true;
                    }
                    k += 1;
                }
                return false;
            }
            i -= 1;
        }
        proof {
            lemma_name_start_at(path@, 0);
            assert(path@.skip(0) =~= path@);
            lemma_last_dot_none(path@);
        }
        false
    }

    /// The listed extensions, in order.
    pub fn as_slice(&self) -> (r: &[Vec<u8>])
        ensures
            r@ == self.0@,
    {
        self.0.as_slice()
    }
}

/// An editing or navigation action a key sequence can be bound to.
#[derive(Clone, Copy, Debug, PartialEq, Eq)]
pub enum KeyAction {
    ScrollDown,
    ScrollUp,
    ScrollLeft,
    ScrollRight,
    Back,
    Forward,
    Reload,
    ScrollTop,
    ScrollBottom,
    OpenFile,
    ScrollPageDown,
    ScrollPageUp,
    NextSection,
    PrevSection,
}

/// The stock key bindings, pair by pair.
pub open spec fn is_default_keymaps(r: Seq<(String, KeyAction)>) -> bool {
    &&& r.len() == 22
        &&& r[0].0@ == "j"@
        &&& r[0].1 == KeyAction::ScrollDown
        &&& r[1].0@ == "k"@
        &&& r[1].1 == KeyAction::ScrollUp
        &&& r[2].0@ == "h"@
        &&& r[2].1 == KeyAction::ScrollLeft
        &&& r[3].0@ == "l"@
        &&& r[3].1 == KeyAction::ScrollRight
        &&& r[4].0@ == "ctrl+b"@
        &&& r[4].1 == KeyAction::Back
        &&& r[5].0@ == "ctrl+f"@
        &&& r[5].1 == KeyAction::Forward
        &&& r[6].0@ == "r"@
        &&& r[6].1 == KeyAction::Reload
        &&& r[7].0@ == "g g"@
        &&& r[7].1 == KeyAction::ScrollTop
        &&& r[8].0@ == "G"@
        &&& r[8].1 == KeyAction::ScrollBottom
        &&& r[9].0@ == "ctrl+o"@
        &&& r[9].1 == KeyAction::OpenFile
        &&& r[10].0@ == "ctrl+d"@
        &&& r[10].1 == KeyAction::ScrollPageDown
        &&& r[11].0@ == "ctrl+u"@
        &&& r[11].1 == KeyAction::ScrollPageUp
        &&& r[12].0@ == "down"@
        &&& r[12].1 == KeyAction::ScrollDown
        &&& r[13].0@ == "up"@
        &&& r[13].1 == KeyAction::ScrollUp
        &&& r[14].0@ == "left"@
        &&& r[14].1 == KeyAction::ScrollLeft
        &&& r[15].0@ == "right"@
        &&& r[15].1 == KeyAction::ScrollRight
        &&& r[16].0@ == "pagedown"@
        &&& r[16].1 == KeyAction::ScrollPageDown
        &&& r[17].0@ == "pageup"@
        &&& r[17].1 == KeyAction::ScrollPageUp
        &&& r[18].0@ == "ctrl+down"@
        &&& r[18].1 == KeyAction::ScrollBottom
        &&& r[19].0@ == "ctrl+up"@
        &&& r[19].1 == KeyAction::ScrollTop
        &&& r[20].0@ == "ctrl+j"@
        &&& r[20].1 == KeyAction::NextSection
        &&& r[21].0@ == "ctrl+k"@
        &&& r[21].1 == KeyAction::PrevSection
}

/// The key bindings a configuration starts from.
pub fn default_keymaps() -> (r: Vec<(String, KeyAction)>)
    ensures
        is_default_keymaps(r@),
{
    let mut m: Vec<(String, KeyAction)> = Vec::new();
    m.push(("j".to_owned(), KeyAction::ScrollDown));
    m.push(("k".to_owned(), KeyAction::ScrollUp));
    m.push(("h".to_owned(), KeyAction::ScrollLeft));
    m.push(("l".to_owned(), KeyAction::ScrollRight));
    m.push(("ctrl+b".to_owned(), KeyAction::Back));
    m.push(("ctrl+f".to_owned(), KeyAction::Forward));
    m.push(("r".to_owned(), KeyAction::Reload));
    m.push(("g g".to_owned(), KeyAction::ScrollTop));
    m.push(("G".to_owned(), KeyAction::ScrollBottom));
    m.push(("ctrl+o".to_owned(), KeyAction::OpenFile));
    m.push(("ctrl+d".to_owned(), KeyAction::ScrollPageDown));
    m.push(("ctrl+u".to_owned(), KeyAction::ScrollPageUp));
    m.push(("down".to_owned(), KeyAction::ScrollDown));
    m.push(("up".to_owned(), KeyAction::ScrollUp));
    m.push(("left".to_owned(), KeyAction::ScrollLeft));
    m.push(("right".to_owned(), KeyAction::ScrollRight));
    m.push(("pagedown".to_owned(), KeyAction::ScrollPageDown));
    m.push(("pageup".to_owned(), KeyAction::ScrollPageUp));
    m.push(("ctrl+down".to_owned(), KeyAction::ScrollBottom));
    m.push(("ctrl+up".to_owned(), KeyAction::ScrollTop));
    m.push(("ctrl+j".to_owned(), KeyAction::NextSection));
    m.push(("ctrl+k".to_owned(), KeyAction::PrevSection));
    m
}

/// File-watcher settings.
pub struct Watch {
    pub file_extensions: FileExtensions,
    pub debounce_throttle: u32,
}

impl Default for Watch {
    fn default() -> (r: Self)
        ensures
            is_default_extensions(&r.file_extensions),
            r.debounce_throttle == 50,
    {
        Watch { file_extensions: FileExtensions::default(), debounce_throttle: 50 }
    }
}

impl Watch {
    /// The debounce window between file events, in milliseconds.
    pub fn debounce_throttle(&self) -> (r: u64)
        ensures
            r == self.debounce_throttle as u64,
    {
        self.debounce_throttle as u64
    }

    /// The extensions of watched markdown files.
    pub fn file_extensions(&self) -> (r: &FileExtensions)
        ensures
            *r == self.file_extensions,
    {
        &self.file_extensions
    }
}

/// How search queries are matched against the document.
#[derive(Clone, Copy, Debug, PartialEq, Eq)]
pub enum SearchMatcher {
    SmartCase,
    CaseSensitive,
    CaseInsensitive,
    CaseSensitiveRegex,
}

impl Default for SearchMatcher {
    fn default() -> (r: Self)
        ensures
            r == SearchMatcher::SmartCase,
    {
        SearchMatcher::SmartCase
    }
}

/// Search settings.
pub struct Search {
    pub matcher: SearchMatcher,
}

impl Default for Search {
    fn default() -> (r: Self)
        ensures
            r.matcher == SearchMatcher::SmartCase,
    {
        Search { matcher: SearchMatcher::SmartCase }
    }
}

/// The window color theme.
#[derive(Clone, Copy, Debug, PartialEq, Eq)]
pub enum WindowTheme {
    System,
    Dark,
    Light,
}

impl Default for WindowTheme {
    fn default() -> (r: Self)
        ensures
            r == WindowTheme::System,
    {
        WindowTheme::System
    }
}

/// Window settings.
pub struct Window {
    pub restore: bool,
    pub theme: WindowTheme,
}

impl Default for Window {
    fn default() -> (r: Self)
        ensures
            !r.restore,
            r.theme == WindowTheme::System,
    {
        Window { restore: false, theme: WindowTheme::System }
    }
}

/// The syntax highlight themes of the preview, one per color scheme.
pub struct PreviewHighlight {
    pub dark: String,
    pub light: String,
}

impl Default for PreviewHighlight {
    fn default() -> (r: Self)
        ensures
            r.dark@ == "GitHub Dark"@,
            r.light@ == "GitHub"@,
    {
        PreviewHighlight { dark: "GitHub Dark".to_owned(), light: "GitHub".to_owned() }
    }
}

/// Preview settings.
pub struct Preview {
    pub highlight: PreviewHighlight,
}

impl Default for Preview {
    fn default() -> (r: Self)
        ensures
            r.highlight.dark@ == "GitHub Dark"@,
            r.highlight.light@ == "GitHub"@,
    {
        Preview { highlight: PreviewHighlight::default() }
    }
}

impl Preview {
    /// The preview's highlight themes.
    pub fn highlight(&self) -> (r: &PreviewHighlight)
        ensures
            *r == self.highlight,
    {
        &self.highlight
    }
}

} // verus!
