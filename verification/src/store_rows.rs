//! The catalog store's row shapes, and the building of row values from
//! catalog content. A game's write lands in one metadata row plus one row
//! per known name, save path and executable, each carrying the game's
//! row id; the persistence layer only submits what is built here. The
//! operating-system column holds the names `windows`, `linux` and
//! `undefined`.

use vstd::prelude::*;

use crate::endpoint::{ExecutableCreate, GameMetadataCreate, SavePathCreate, OS};

verus! {

/// A stored game metadata row.
#[derive(Debug)]
pub struct DbGameMetadata {
    pub id: Option<i32>,
    pub steam_appid: Option<String>,
    pub default_name: String,
}

/// A stored known-name row.
#[derive(Debug)]
pub struct DbGameName {
    pub name: String,
    pub game_metadata_id: i32,
}

/// A stored executable row.
#[derive(Debug)]
pub struct DbGameExecutable {
    pub id: Option<i32>,
    pub executable: String,
    pub operating_system: OS,
    pub game_metadata_id: i32,
}

/// A stored save-path row.
#[derive(Debug)]
pub struct DbGamePath {
    pub id: Option<i32>,
    pub path: String,
    pub operating_system: OS,
    pub game_metadata_id: i32,
}

/// A stored file-hash row of one save.
#[derive(Debug)]
pub struct DbFileHash {
    pub relative_path: String,
    pub hash: String,
    pub game_save_uuid: String,
}

/// A metadata row to insert.
#[derive(Debug)]
pub struct NewGameMetadata {
    pub steam_appid: Option<String>,
    pub default_name: String,
}

/// A known-name row to insert.
#[derive(Debug)]
pub struct NewGameName {
    pub name: String,
    pub game_metadata_id: i32,
}

/// An executable row to insert; the operating system as its column text.
#[derive(Debug)]
pub struct NewGameExecutable {
    pub executable: String,
    pub operating_system: String,
    pub game_metadata_id: i32,
}

/// A save-path row to insert; the operating system as its column text.
#[derive(Debug)]
pub struct NewGamePath {
    pub path: String,
    pub operating_system: String,
    pub game_metadata_id: i32,
}

/// Ghost model of a known-name row.
pub struct NameRowV {
    pub name: Seq<char>,
    pub game_metadata_id: int,
}

impl View for NewGameName {
    type V = NameRowV;

    open spec fn view(&self) -> NameRowV {
        NameRowV { name: self.name@, game_metadata_id: self.game_metadata_id as int }
    }
}

impl DeepView for NewGameName {
    type V = NameRowV;

    open spec fn deep_view(&self) -> NameRowV {
        self.view()
    }
}

/// Ghost model of a path or executable row: the path's characters, the
/// operating-system column text and the owning game's id.
pub struct PathRowV {
    pub path: Seq<char>,
    pub operating_system: Seq<char>,
    pub game_metadata_id: int,
}

impl View for NewGamePath {
    type V = PathRowV;

    open spec fn view(&self) -> PathRowV {
        PathRowV {
            path: self.path@,
            operating_system: self.operating_system@,
            game_metadata_id: self.game_metadata_id as int,
        }
    }
}

impl DeepView for NewGamePath {
    type V = PathRowV;

    open spec fn deep_view(&self) -> PathRowV {
        self.view()
    }
}

impl View for NewGameExecutable {
    type V = PathRowV;

    open spec fn view(&self) -> PathRowV {
        PathRowV {
            path: self.executable@,
            operating_system: self.operating_system@,
            game_metadata_id: self.game_metadata_id as int,
        }
    }
}

impl DeepView for NewGameExecutable {
    type V = PathRowV;

    open spec fn deep_view(&self) -> PathRowV {
        self.view()
    }
}

/// The operating-system column text of each applicability value.
pub open spec fn os_column_text(os: OS) -> Seq<char> {
    match os {
        OS::Windows => "windows"@,
        OS::Linux => "linux"@,
        OS::Undefined => "undefined"@,
    }
}

/// The column text an operating-system value is stored as.
pub fn os_to_column_text(os: OS) -> (r: &'static str)
    ensures
        r@ == os_column_text(os),
{
    match os {
        OS::Windows => "windows",
        OS::Linux => "linux",
        OS::Undefined => "undefined",
    }
}

/// Whether two strings hold the same characters.
pub fn str_eq(a: &str, b: &str) -> (r: bool)
    ensures
        r == (a@ == b@),
{
    let a_len = a.unicode_len();
    let b_len = b.unicode_len();
    if a_len != b_len {
        return false;
    }
    let mut k: usize = 0;
    while k < a_len
        invariant
            0 <= k <= a_len,
            a_len == a@.len(),
            a_len == b@.len(),
            forall|i: int| 0 <= i < k ==> a@[i] == b@[i],
        decreases a_len - k,
    {
        if a.get_char(k) != b.get_char(k) {
            return false;
        }
        k += 1;
    }
    assert(a@ =~= b@);
    true
}

/// The operating-system value of a column text, if the text is a known
/// name.
pub fn os_from_column_text(s: &str) -> (r: Option<OS>)
    ensures
        r == (if s@ == "windows"@ {
            Some(OS::Windows)
        } else if s@ == "linux"@ {
            Some(OS::Linux)
        } else if s@ == "undefined"@ {
            Some(OS::Undefined)
        } else {
            None::<OS>
        }),
{
    if str_eq(s, "windows") {
        Some(OS::Windows)
    } else if str_eq(s, "linux") {
        Some(OS::Linux)
    } else if str_eq(s, "undefined") {
        Some(OS::Undefined)
    } else {
        None
    }
}

/// The metadata row a game's write inserts.
pub fn metadata_row_for_game(metadata: &GameMetadataCreate) -> (r: NewGameMetadata)
    ensures
        r.default_name@ == metadata@.default_name,
        (match r.steam_appid {
            Some(ref s) => metadata@.steam_appid == Some(s@),
            None => metadata@.steam_appid is None,
        }),
{
    let cloned = metadata.clone();
    NewGameMetadata { steam_appid: cloned.steam_appid, default_name: cloned.default_name }
}

/// One known-name row per synonym, each owned by the game's row id.
pub fn name_rows_for_game(game_id: i32, known_name: &Vec<String>) -> (r: Vec<NewGameName>)
    ensures
        r.deep_view().len() == known_name.deep_view().len(),
        forall|i: int|
            0 <= i < known_name.deep_view().len() ==> #[trigger] r.deep_view()[i] == (NameRowV {
                name: known_name.deep_view()[i],
                game_metadata_id: game_id as int,
            }),
{
    let mut r: Vec<NewGameName> = Vec::new();
    let mut k: usize = 0;
    while k < known_name.len()
        invariant
            0 <= k <= known_name.len(),
            r.deep_view().len() == k,
            forall|i: int|
                0 <= i < k ==> #[trigger] r.deep_view()[i] == (NameRowV {
                    name: known_name.deep_view()[i],
                    game_metadata_id: game_id as int,
                }),
        decreases known_name.len() - k,
    {
        let ghost before = r.deep_view();
        let name = known_name[k].clone();
        assert(name@ == known_name.deep_view()[k as int]);
        r.push(NewGameName { name, game_metadata_id: game_id });
        assert(r.deep_view() =~= before.push(
            NameRowV {
                name: known_name.deep_view()[k as int],
                game_metadata_id: game_id as int,
            },
        ));
        k += 1;
    }
    r
}

/// One save-path row per path, each owned by the game's row id, with the
/// operating system as its column text.
pub fn path_rows_for_game(game_id: i32, paths: &Vec<SavePathCreate>) -> (r: Vec<NewGamePath>)
    ensures
        r.deep_view().len() == paths.deep_view().len(),
        forall|i: int|
            0 <= i < paths.deep_view().len() ==> #[trigger] r.deep_view()[i] == (PathRowV {
                path: paths.deep_view()[i].path,
                operating_system: os_column_text(paths.deep_view()[i].os),
                game_metadata_id: game_id as int,
            }),
{
    let mut r: Vec<NewGamePath> = Vec::new();
    let mut k: usize = 0;
    while k < paths.len()
        invariant
            0 <= k <= paths.len(),
            r.deep_view().len() == k,
            forall|i: int|
                0 <= i < k ==> #[trigger] r.deep_view()[i] == (PathRowV {
                    path: paths.deep_view()[i].path,
                    operating_system: os_column_text(paths.deep_view()[i].os),
                    game_metadata_id: game_id as int,
                }),
        decreases paths.len() - k,
    {
        let entry = &paths[k];
        assert(entry@ == paths.deep_view()[k as int]);
        let ghost before = r.deep_view();
        r.push(
            NewGamePath {
                path: entry.path.clone(),
                operating_system: String::from_str(os_to_column_text(entry.operating_system)),
                game_metadata_id: game_id,
            },
        );
        assert(r.deep_view() =~= before.push(
            PathRowV {
                path: paths.deep_view()[k as int].path,
                operating_system: os_column_text(paths.deep_view()[k as int].os),
                game_metadata_id: game_id as int,
            },
        ));
        k += 1;
    }
    r
}

/// One executable row per executable, each owned by the game's row id,
/// with the operating system as its column text.
pub fn executable_rows_for_game(game_id: i32, executables: &Vec<ExecutableCreate>) -> (r: Vec<
    NewGameExecutable,
>)
    ensures
        r.deep_view().len() == executables.deep_view().len(),
        forall|i: int|
            0 <= i < executables.deep_view().len() ==> #[trigger] r.deep_view()[i] == (PathRowV {
                path: executables.deep_view()[i].path,
                operating_system: os_column_text(executables.deep_view()[i].os),
                game_metadata_id: game_id as int,
            }),
{
    let mut r: Vec<NewGameExecutable> = Vec::new();
    let mut k: usize = 0;
    while k < executables.len()
        invariant
            0 <= k <= executables.len(),
            r.deep_view().len() == k,
            forall|i: int|
                0 <= i < k ==> #[trigger] r.deep_view()[i] == (PathRowV {
                    path: executables.deep_view()[i].path,
                    operating_system: os_column_text(executables.deep_view()[i].os),
                    game_metadata_id: game_id as int,
                }),
        decreases executables.len() - k,
    {
        let entry = &executables[k];
        assert(entry@ == executables.deep_view()[k as int]);
        let ghost before = r.deep_view();
        r.push(
            NewGameExecutable {
                executable: entry.executable.clone(),
                operating_system: String::from_str(os_to_column_text(entry.operating_system)),
                game_metadata_id: game_id,
            },
        );
        assert(r.deep_view() =~= before.push(
            PathRowV {
                path: executables.deep_view()[k as int].path,
                operating_system: os_column_text(executables.deep_view()[k as int].os),
                game_metadata_id: game_id as int,
            },
        ));
        k += 1;
    }
    r
}

} // verus!
