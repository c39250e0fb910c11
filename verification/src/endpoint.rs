//! Plain data types exchanged with the surrounding application: operating
//! system tags, save paths, executables, game metadata, file hashes and
//! save references.

use vstd::prelude::*;

verus! {

/// Operating-system applicability of a save path or an executable.
/// `Undefined` means the path applies regardless of operating system.
#[derive(Debug, Clone, Copy, PartialEq, Eq, Structural)]
pub enum OS {
    Windows,
    Linux,
    Undefined,
}

/// A save path together with the operating system it applies to.
#[derive(Debug)]
pub struct SavePathCreate {
    pub path: String,
    pub operating_system: OS,
}

/// A stored save path with its row id.
#[derive(Debug, Clone)]
pub struct SavePath {
    pub id: Option<i32>,
    pub path: SavePathCreate,
}

/// An executable path together with the operating system it applies to.
#[derive(Debug)]
pub struct ExecutableCreate {
    pub executable: String,
    pub operating_system: OS,
}

/// A stored executable with its row id.
#[derive(Debug, Clone)]
pub struct Executable {
    pub id: Option<i32>,
    pub executable: ExecutableCreate,
}

/// The metadata of a game: its canonical name, known synonyms and the
/// optional Steam application id.
#[derive(Debug)]
pub struct GameMetadataCreate {
    pub known_name: Vec<String>,
    pub steam_appid: Option<String>,
    pub default_name: String,
}

/// Stored game metadata with its row id.
#[derive(Debug, Clone)]
pub struct GameMetadata {
    pub id: Option<i32>,
    pub metadata: GameMetadataCreate,
}

/// A (relative path, content hash) pair describing one file of a save.
#[derive(Debug, Clone)]
pub struct FileHash {
    pub relative_path: String,
    pub hash: String,
}

/// An uploaded save's identity: its generated id, the owning path,
/// its creation time (unix seconds) and the hashes of its files.
#[derive(Debug, Clone)]
pub struct SaveReference {
    pub uuid: String,
    pub path_id: i32,
    pub time: i64,
    pub hash: String,
    pub files_hash: Vec<FileHash>,
}

/// A configuration value as carried by the configuration endpoints.
#[derive(Debug, Clone)]
pub struct ConfigurationForm {
    pub value: String,
}

/// An uploaded save: raw file bytes plus the hashes of its contents.
#[derive(Debug, Clone)]
pub struct UploadedSave {
    pub hash: Option<String>,
    pub file: Vec<u8>,
    pub file_hash: Vec<FileHash>,
}

/// An uploaded manifest file, as raw bytes.
#[derive(Debug, Clone)]
pub struct UploadedFileYaml {
    pub file: Vec<u8>,
}

/// An uploaded file, as raw bytes.
#[derive(Debug, Clone)]
pub struct UploadedFile {
    pub file: Vec<u8>,
}

/// Ghost model of a save path or executable: the path's characters and its
/// operating system.
pub struct PathPairV {
    pub path: Seq<char>,
    pub os: OS,
}

impl View for SavePathCreate {
    type V = PathPairV;

    open spec fn view(&self) -> PathPairV {
        PathPairV { path: self.path@, os: self.operating_system }
    }
}

impl DeepView for SavePathCreate {
    type V = PathPairV;

    open spec fn deep_view(&self) -> PathPairV {
        self.view()
    }
}

impl View for ExecutableCreate {
    type V = PathPairV;

    open spec fn view(&self) -> PathPairV {
        PathPairV { path: self.executable@, os: self.operating_system }
    }
}

impl DeepView for ExecutableCreate {
    type V = PathPairV;

    open spec fn deep_view(&self) -> PathPairV {
        self.view()
    }
}

/// Ghost model of game metadata.
pub struct GameMetadataV {
    pub known_name: Seq<Seq<char>>,
    pub steam_appid: Option<Seq<char>>,
    pub default_name: Seq<char>,
}

impl View for GameMetadataCreate {
    type V = GameMetadataV;

    open spec fn view(&self) -> GameMetadataV {
        GameMetadataV {
            known_name: self.known_name.deep_view(),
            steam_appid: match self.steam_appid {
                Some(ref s) => Some(s@),
                None => None,
            },
            default_name: self.default_name@,
        }
    }
}

/// Ghost model of a save reference.
pub struct SaveReferenceV {
    pub uuid: Seq<char>,
    pub path_id: int,
    pub time: int,
}

impl View for SaveReference {
    type V = SaveReferenceV;

    open spec fn view(&self) -> SaveReferenceV {
        SaveReferenceV { uuid: self.uuid@, path_id: self.path_id as int, time: self.time as int }
    }
}

impl DeepView for SaveReference {
    type V = SaveReferenceV;

    open spec fn deep_view(&self) -> SaveReferenceV {
        self.view()
    }
}

impl Clone for SavePathCreate {
    fn clone(&self) -> (r: Self)
        ensures
            r@ == self@,
    {
        SavePathCreate { path: self.path.clone(), operating_system: self.operating_system }
    }
}

impl Clone for ExecutableCreate {
    fn clone(&self) -> (r: Self)
        ensures
            r@ == self@,
    {
        ExecutableCreate {
            executable: self.executable.clone(),
            operating_system: self.operating_system,
        }
    }
}

impl Clone for GameMetadataCreate {
    fn clone(&self) -> (r: Self)
        ensures
            r@ == self@,
    {
        let known_name = self.known_name.clone();
        proof {
            assert forall|i: int|
                0 <= i < known_name@.len() implies known_name@[i]@ == self.known_name@[i]@ by {
                assert(cloned::<String>(self.known_name[i], known_name[i]));
            }
            assert(known_name.deep_view() =~= self.known_name.deep_view());
        }
        let steam_appid = match &self.steam_appid {
            Some(s) => Some(s.clone()),
            None => None,
        };
        GameMetadataCreate { known_name, steam_appid, default_name: self.default_name.clone() }
    }
}

} // verus!
