use vstd::prelude::*;

use crate::csv_document::CsvDelimiter;
use std::path::{Path, PathBuf};
use crate::text::{chars_of, chars_equal};

verus! {

pub const DEFAULT_HEADER_ROWS: usize = 2;
pub const MIN_HEADER_ROWS: usize = 1;
pub const MAX_HEADER_ROWS: usize = 5;

/// Where settings are kept.
pub struct SettingsStore {
    path: PathBuf,
}

impl SettingsStore {
    /// A store kept at the given file.
    pub fn at(path: PathBuf) -> (r: SettingsStore)
        ensures
            r.file() == path,
    {
        SettingsStore { path }
    }

    /// The file the store is kept at (a `PathBuf`, which callers use as a `&Path` through `Deref`).
    pub fn path(&self) -> (r: &PathBuf)
        ensures
            *r == self.file(),
    {
        &self.path
    }

    pub closed spec fn file(&self) -> PathBuf {
        self.path
    }
}

#[derive(Clone, Copy, Debug, PartialEq, Eq, Structural)]
pub struct FilePreferences {
    pub header_rows: usize,
    pub delimiter: Option<CsvDelimiter>,
}

pub open spec fn default_preferences() -> FilePreferences {
    FilePreferences { header_rows: DEFAULT_HEADER_ROWS, delimiter: None }
}

impl Default for FilePreferences {
    fn default() -> (r: FilePreferences)
        ensures
            r == default_preferences(),
    {
        FilePreferences { header_rows: DEFAULT_HEADER_ROWS, delimiter: None }
    }
}

/// Preferences with a header row count outside 1..=5 reset to the default of 2.
pub open spec fn normalized(p: FilePreferences) -> FilePreferences {
    if MIN_HEADER_ROWS <= p.header_rows <= MAX_HEADER_ROWS {
        p
    } else {
        FilePreferences { header_rows: DEFAULT_HEADER_ROWS, ..p }
    }
}

impl FilePreferences {
    fn normalized(self) -> (r: FilePreferences)
        ensures
            r == normalized(self),
    {
        let mut p = self;
        if !(MIN_HEADER_ROWS <= p.header_rows && p.header_rows <= MAX_HEADER_ROWS) {
            p.header_rows = DEFAULT_HEADER_ROWS;
        }
        p
    }
}

/// The preferences of a workspace's files, by the file's path relative to the workspace.
pub struct WorkspaceSettings {
    pub files: Vec<(String, FilePreferences)>,
}

impl Default for WorkspaceSettings {
    fn default() -> (r: WorkspaceSettings)
        ensures
            r.files@.len() == 0,
    {
        WorkspaceSettings { files: Vec::new() }
    }
}

/// The most recent workspace, and the settings of each workspace by its path.
pub struct Settings {
    pub recent_workspace: Option<String>,
    pub workspaces: Vec<(String, WorkspaceSettings)>,
}

impl Default for Settings {
    fn default() -> (r: Settings)
        ensures
            r.recent_workspace is None,
            r.workspaces@.len() == 0,
    {
        Settings { recent_workspace: None, workspaces: Vec::new() }
    }
}

/// The preferences stored for a file (the first entry of that path), if any.
pub open spec fn stored_file(files: Seq<(String, FilePreferences)>, rel: Seq<char>) -> Option<FilePreferences>
    decreases files.len(),
{
    if files.len() == 0 {
        None
    } else if same_key(files[0].0@, rel) {
        Some(files[0].1)
    } else {
        stored_file(files.drop_first(), rel)
    }
}

/// The files of a workspace (the first entry of that path), if it has settings.
pub open spec fn stored_workspace(workspaces: Seq<(String, WorkspaceSettings)>, ws: Seq<char>) -> Option<Seq<(String, FilePreferences)>>
    decreases workspaces.len(),
{
    if workspaces.len() == 0 {
        None
    } else if same_key(workspaces[0].0@, ws) {
        Some(workspaces[0].1.files@)
    } else {
        stored_workspace(workspaces.drop_first(), ws)
    }
}

/// The preferences stored for a file of a workspace, if any.
pub open spec fn stored_preferences(s: Settings, ws: Seq<char>, rel: Seq<char>) -> Option<FilePreferences> {
    match stored_workspace(s.workspaces@, ws) {
        Some(files) => stored_file(files, rel),
        None => None,
    }
}

/// The preferences that apply to a file: those stored, or the defaults, normalized.
pub open spec fn preferences_of(s: Settings, ws: Seq<char>, rel: Seq<char>) -> FilePreferences {
    normalized(match stored_preferences(s, ws, rel) {
        Some(p) => p,
        None => default_preferences(),
    })
}

/// The components of a path as `Path::components` gives them, each as text: what `PathBuf`
/// compares when it orders or matches keys (repeated and trailing separators and inner `.`
/// components do not count).
pub uninterp spec fn path_components(path: Seq<char>) -> Seq<Seq<char>>;

/// `Path::new(path).components()`, each component as a `String`.
#[verifier::external_body]
fn path_components_of(path: &str) -> (r: Vec<String>)
    ensures
        r.deep_view() == path_components(path@),
{
    Path::new(path).components().map(|c| c.as_os_str().to_string_lossy().into_owned()).collect()
}

/// Whether two paths name the same settings key: they have the same components.
pub open spec fn same_key(a: Seq<char>, b: Seq<char>) -> bool {
    path_components(a) == path_components(b)
}

fn keys_equal(a: &Vec<String>, b: &Vec<String>) -> (r: bool)
    ensures
        r == (a.deep_view() == b.deep_view()),
{
    if a.len() != b.len() {
        proof {
            assert(a.deep_view().len() != b.deep_view().len());
        }
        return false;
    }
    let mut i: usize = 0;
    while i < a.len()
        invariant
            i <= a@.len(),
            a@.len() == b@.len(),
            forall|k: int| 0 <= k < i ==> a@[k]@ == b@[k]@,
        decreases a.len() - i,
    {
        if !chars_equal(&chars_of(a[i].as_str()), &chars_of(b[i].as_str())) {
            proof {
                assert(a.deep_view()[i as int] != b.deep_view()[i as int]);
            }
            return false;
        }
        i += 1;
    }
    proof {
        assert(a.deep_view() =~= b.deep_view());
    }
    true
}

fn find_file(files: &Vec<(String, FilePreferences)>, rel: &str) -> (r: Option<usize>)
    ensures
        match r {
            Some(i) => i < files@.len() && same_key(files@[i as int].0@, rel@) && stored_file(files@, rel@) == Some(files@[i as int].1)
                && forall|k: int| 0 <= k < i ==> !same_key(files@[k].0@, rel@),
            None => stored_file(files@, rel@) is None,
        },
{
    let target = path_components_of(rel);
    let mut i: usize = 0;
    proof {
        assert(files@.skip(0) =~= files@);
    }
    while i < files.len()
        invariant
            i <= files@.len(),
            stored_file(files@.skip(i as int), rel@) == stored_file(files@, rel@),
            forall|k: int| 0 <= k < i ==> !same_key(files@[k].0@, rel@),
            target.deep_view() == path_components(rel@),
        decreases files.len() - i,
    {
        proof {
            assert(files@.skip(i as int).drop_first() =~= files@.skip(i + 1));
            assert(files@.skip(i as int)[0] == files@[i as int]);
        }
        let name = files[i].0.as_str();
        proof {
            assert(name@ == files@[i as int].0@);
        }
        let key = path_components_of(name);
        proof {
            assert(key.deep_view() == path_components(files@[i as int].0@));
            assert(target.deep_view() == path_components(rel@));
        }
        if keys_equal(&key, &target) {
            proof {
                assert(same_key(files@[i as int].0@, rel@));
            }
            return Some(i);
        }
        proof {
            assert(!same_key(files@[i as int].0@, rel@));
        }
        i += 1;
    }
    None
}

fn find_workspace(workspaces: &Vec<(String, WorkspaceSettings)>, ws: &str) -> (r: Option<usize>)
    ensures
        match r {
            Some(i) => i < workspaces@.len() && same_key(workspaces@[i as int].0@, ws@)
                && stored_workspace(workspaces@, ws@) == Some(workspaces@[i as int].1.files@)
                && forall|k: int| 0 <= k < i ==> !same_key(workspaces@[k].0@, ws@),
            None => stored_workspace(workspaces@, ws@) is None,
        },
{
    let target = path_components_of(ws);
    let mut i: usize = 0;
    proof {
        assert(workspaces@.skip(0) =~= workspaces@);
    }
    while i < workspaces.len()
        invariant
            i <= workspaces@.len(),
            stored_workspace(workspaces@.skip(i as int), ws@) == stored_workspace(workspaces@, ws@),
            forall|k: int| 0 <= k < i ==> !same_key(workspaces@[k].0@, ws@),
            target.deep_view() == path_components(ws@),
        decreases workspaces.len() - i,
    {
        proof {
            assert(workspaces@.skip(i as int).drop_first() =~= workspaces@.skip(i + 1));
            assert(workspaces@.skip(i as int)[0] == workspaces@[i as int]);
        }
        let name = workspaces[i].0.as_str();
        proof {
            assert(name@ == workspaces@[i as int].0@);
        }
        let key = path_components_of(name);
        proof {
            assert(key.deep_view() == path_components(workspaces@[i as int].0@));
            assert(target.deep_view() == path_components(ws@));
        }
        if keys_equal(&key, &target) {
            proof {
                assert(same_key(workspaces@[i as int].0@, ws@));
            }
            return Some(i);
        }
        proof {
            assert(!same_key(workspaces@[i as int].0@, ws@));
        }
        i += 1;
    }
    None
}

/// The first entry of `rel` decides the lookup: an update of entry `i` (the first with that name)
/// or a new entry at the end shows through.
proof fn lemma_stored_file_update(files: Seq<(String, FilePreferences)>, i: int, entry: (String, FilePreferences), rel: Seq<char>)
    requires
        0 <= i < files.len(),
        same_key(files[i].0@, entry.0@),
        forall|k: int| 0 <= k < i ==> !same_key(files[k].0@, entry.0@),
    ensures
        stored_file(files.update(i, entry), rel) == if same_key(entry.0@, rel) { Some(entry.1) } else { stored_file(files, rel) },
    decreases files.len(),
{
    let u = files.update(i, entry);
    if i > 0 {
        lemma_stored_file_update(files.drop_first(), i - 1, entry, rel);
        assert(u.drop_first() =~= files.drop_first().update(i - 1, entry));
        assert(u[0] == files[0]);
    } else {
        assert(u.drop_first() =~= files.drop_first());
        assert(u[0] == entry);
    }
}

proof fn lemma_stored_file_push(files: Seq<(String, FilePreferences)>, entry: (String, FilePreferences), rel: Seq<char>)
    requires
        stored_file(files, entry.0@) is None,
    ensures
        stored_file(files.push(entry), rel) == if same_key(entry.0@, rel) { Some(entry.1) } else { stored_file(files, rel) },
    decreases files.len(),
{
    let u = files.push(entry);
    if files.len() > 0 {
        assert(!same_key(files[0].0@, entry.0@));
        assert(stored_file(files.drop_first(), entry.0@) is None);
        lemma_stored_file_push(files.drop_first(), entry, rel);
        assert(u.drop_first() =~= files.drop_first().push(entry));
        assert(u[0] == files[0]);
        assert(stored_file(u, rel) == if same_key(u[0].0@, rel) { Some(u[0].1) } else { stored_file(u.drop_first(), rel) });
    } else {
        assert(u.drop_first() =~= Seq::<(String, FilePreferences)>::empty());
        assert(u[0] == entry);
    }
}

/// A lookup goes by the key's components alone.
proof fn lemma_stored_workspace_key(ws: Seq<(String, WorkspaceSettings)>, a: Seq<char>, b: Seq<char>)
    requires
        same_key(a, b),
    ensures
        stored_workspace(ws, a) == stored_workspace(ws, b),
    decreases ws.len(),
{
    if ws.len() > 0 {
        lemma_stored_workspace_key(ws.drop_first(), a, b);
    }
}

proof fn lemma_stored_workspace_update(ws: Seq<(String, WorkspaceSettings)>, i: int, entry: (String, WorkspaceSettings), key: Seq<char>)
    requires
        0 <= i < ws.len(),
        same_key(ws[i].0@, entry.0@),
        forall|k: int| 0 <= k < i ==> !same_key(ws[k].0@, entry.0@),
    ensures
        stored_workspace(ws.update(i, entry), key) == if same_key(entry.0@, key) { Some(entry.1.files@) } else { stored_workspace(ws, key) },
    decreases ws.len(),
{
    let u = ws.update(i, entry);
    if i > 0 {
        lemma_stored_workspace_update(ws.drop_first(), i - 1, entry, key);
        assert(u.drop_first() =~= ws.drop_first().update(i - 1, entry));
        assert(u[0] == ws[0]);
    } else {
        assert(u.drop_first() =~= ws.drop_first());
        assert(u[0] == entry);
    }
}

proof fn lemma_stored_workspace_push(ws: Seq<(String, WorkspaceSettings)>, entry: (String, WorkspaceSettings), key: Seq<char>)
    requires
        stored_workspace(ws, entry.0@) is None,
    ensures
        stored_workspace(ws.push(entry), key) == if same_key(entry.0@, key) { Some(entry.1.files@) } else { stored_workspace(ws, key) },
    decreases ws.len(),
{
    let u = ws.push(entry);
    if ws.len() > 0 {
        assert(!same_key(ws[0].0@, entry.0@));
        assert(stored_workspace(ws.drop_first(), entry.0@) is None);
        lemma_stored_workspace_push(ws.drop_first(), entry, key);
        assert(u.drop_first() =~= ws.drop_first().push(entry));
        assert(u[0] == ws[0]);
        assert(stored_workspace(u, key) == if same_key(u[0].0@, key) { Some(u[0].1.files@) } else { stored_workspace(u.drop_first(), key) });
    } else {
        assert(u.drop_first() =~= Seq::<(String, WorkspaceSettings)>::empty());
        assert(u[0] == entry);
    }
}

fn set_in_files(files: &mut Vec<(String, FilePreferences)>, rel: &str, p: FilePreferences)
    ensures
        forall|r: Seq<char>| stored_file(final(files)@, r) == if same_key(rel@, r) { Some(p) } else { stored_file(old(files)@, r) },
{
    let entry = (rel.to_string(), p);
    match find_file(files, rel) {
        Some(i) => {
            let ghost before = files@;
            files.set(i, entry);
            proof {
                assert forall|r: Seq<char>| stored_file(files@, r) == if same_key(rel@, r) { Some(p) } else { stored_file(before, r) } by {
                    lemma_stored_file_update(before, i as int, entry, r);
                }
            }
        },
        None => {
            let ghost before = files@;
            files.push(entry);
            proof {
                assert forall|r: Seq<char>| stored_file(files@, r) == if same_key(rel@, r) { Some(p) } else { stored_file(before, r) } by {
                    lemma_stored_file_push(before, entry, r);
                }
            }
        },
    }
}

impl Settings {
    /// The preferences that apply to a file of a workspace (see `preferences_of`).
    pub fn file_preferences(&self, workspace: &str, relative_path: &str) -> (r: FilePreferences)
        ensures
            r == preferences_of(*self, workspace@, relative_path@),
    {
        let stored = match find_workspace(&self.workspaces, workspace) {
            Some(w) => match find_file(&self.workspaces[w].1.files, relative_path) {
                Some(f) => Some(self.workspaces[w].1.files[f].1),
                None => None,
            },
            None => None,
        };
        let p = match stored {
            Some(p) => p,
            None => FilePreferences::default(),
        };
        p.normalized()
    }

    /// Stores the normalized preferences of a file of a workspace; every other stored preference
    /// stays as it was.
    pub fn set_file_preferences(&mut self, workspace: &str, relative_path: &str, preferences: FilePreferences)
        ensures
            final(self).recent_workspace == old(self).recent_workspace,
            forall|w: Seq<char>, r: Seq<char>| stored_preferences(*final(self), w, r) == if same_key(workspace@, w) && same_key(relative_path@, r) {
                Some(normalized(preferences))
            } else {
                stored_preferences(*old(self), w, r)
            },
            preferences_of(*final(self), workspace@, relative_path@) == normalized(preferences),
            forall|w: Seq<char>, r: Seq<char>| !(same_key(workspace@, w) && same_key(relative_path@, r))
                ==> #[trigger] preferences_of(*final(self), w, r) == preferences_of(*old(self), w, r),
    {
        let p = preferences.normalized();
        let ghost before = self.workspaces@;
        match find_workspace(&self.workspaces, workspace) {
            Some(w) => {
                let mut files = Vec::new();
                std::mem::swap(&mut files, &mut self.workspaces[w].1.files);
                let ghost old_files = files@;
                proof {
                    assert(old_files == before[w as int].1.files@);
                }
                set_in_files(&mut files, relative_path, p);
                let name = workspace.to_string();
                let ghost new_files = files@;
                let entry = (name, WorkspaceSettings { files });
                let ghost mid = self.workspaces@;
                self.workspaces.set(w, entry);
                proof {
                    assert(mid.len() == before.len());
                    assert(forall|k: int| 0 <= k < before.len() && k != w ==> mid[k] == before[k]);
                    assert(self.workspaces@ =~= before.update(w as int, entry));
                    assert forall|ws: Seq<char>, r: Seq<char>| stored_preferences(*self, ws, r) == if same_key(workspace@, ws) && same_key(relative_path@, r) {
                        Some(p)
                    } else {
                        stored_preferences(*old(self), ws, r)
                    } by {
                        lemma_stored_workspace_update(before, w as int, entry, ws);
                        if same_key(workspace@, ws) {
                            lemma_stored_workspace_key(before, workspace@, ws);
                        }
                    }
                }
            },
            None => {
                let mut files: Vec<(String, FilePreferences)> = Vec::new();
                let ghost empty = files@;
                set_in_files(&mut files, relative_path, p);
                let entry = (workspace.to_string(), WorkspaceSettings { files });
                self.workspaces.push(entry);
                proof {
                    assert forall|ws: Seq<char>, r: Seq<char>| stored_preferences(*self, ws, r) == if same_key(workspace@, ws) && same_key(relative_path@, r) {
                        Some(p)
                    } else {
                        stored_preferences(*old(self), ws, r)
                    } by {
                        lemma_stored_workspace_push(before, entry, ws);
                        assert(stored_file(empty, r) is None);
                        if same_key(workspace@, ws) {
                            lemma_stored_workspace_key(before, workspace@, ws);
                        }
                    }
                }
            },
        }
    }
}

} // verus!
