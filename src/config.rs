use vstd::prelude::*;
use vstd::string::StringExecFns;

verus! {

/// Declares tantivy's stemmer language so that an index's configuration can
/// carry it; nothing here looks inside it.
#[verifier::external_type_specification]
#[verifier::external_body]
pub struct ExLanguage(tantivy::tokenizer::Language);

/// Settings that apply to every index.
pub struct MainConfig {
    pub default_index: Option<String>,
}

/// One registered index: where it is stored, the language of its text, the
/// glob patterns that select its files, and how those patterns match.
pub struct IndexConfig {
    pub index_path: String,
    pub language: tantivy::tokenizer::Language,
    pub files: Vec<String>,
    pub case_sensitive: Option<bool>,
    pub require_literal_separator: Option<bool>,
    pub require_literal_leading_dot: Option<bool>,
}

/// The whole configuration: the main settings and the indexes by name.
pub struct Config {
    pub main: MainConfig,
    pub indexes: Vec<(String, IndexConfig)>,
}

/// How the glob patterns of an index match paths.
#[derive(Clone, Copy, Debug, PartialEq, Eq, Structural)]
pub struct MatchFlags {
    pub case_sensitive: bool,
    pub require_literal_separator: bool,
    pub require_literal_leading_dot: bool,
}

/// Why no index could be chosen for a command.
#[derive(Debug)]
pub enum SelectError {
    /// The configuration registers no index.
    NoIndexes,
    /// Several indexes are registered, and neither a name nor a default was given.
    NoIndexChosen,
    /// The chosen name is not registered.
    NotFound(String),
}

/// File name of the configuration below the configuration directory.
pub const CONFIG_FILE_SUFFIX: &'static str = "/local-search/config.toml";

/// Directory below the home directory used when no configuration directory is set.
pub const HOME_CONFIG_SUFFIX: &'static str = "/.config";

/// The value of an optional flag, or `d` when it is not set.
pub open spec fn flag_or(o: Option<bool>, d: bool) -> bool {
    match o {
        Some(b) => b,
        None => d,
    }
}

/// The view of an optional string.
pub open spec fn opt_view(o: Option<String>) -> Option<Seq<char>> {
    match o {
        Some(s) => Some(s@),
        None => None,
    }
}

/// The name that selects an index: the one asked for, else the default.
pub open spec fn chosen_name(asked: Option<String>, default: Option<String>) -> Option<Seq<char>> {
    match asked {
        Some(s) => Some(s@),
        None => opt_view(default),
    }
}

/// The configuration file for the given configuration directory and home
/// directory: below the configuration directory where one is set, else
/// below `.config` in the home directory; none without either.
pub open spec fn config_file_spec(xdg_config_home: Option<Seq<char>>, home: Option<Seq<char>>) -> Option<
    Seq<char>,
> {
    match xdg_config_home {
        Some(d) => Some(d + CONFIG_FILE_SUFFIX@),
        None => match home {
            Some(h) => Some(h + HOME_CONFIG_SUFFIX@ + CONFIG_FILE_SUFFIX@),
            None => None,
        },
    }
}

impl Config {
    /// The names of the registered indexes, in order.
    pub open spec fn names(&self) -> Seq<Seq<char>> {
        self.indexes@.map_values(|e: (String, IndexConfig)| e.0@)
    }

    /// No name is registered twice.
    pub open spec fn wf(&self) -> bool {
        self.names().no_duplicates()
    }

    /// The position of the first index registered under `name`.
    pub fn position(&self, name: &String) -> (r: Option<usize>)
        ensures
            match r {
                Some(i) => i < self.names().len() && self.names()[i as int] == name@ && forall|
                    j: int,
                | 0 <= j < i ==> self.names()[j] != name@,
                None => forall|j: int| 0 <= j < self.names().len() ==> self.names()[j] != name@,
            },
    {
        let mut i: usize = 0;
        while i < self.indexes.len()
            invariant
                i <= self.indexes@.len(),
                forall|j: int| 0 <= j < i ==> self.names()[j] != name@,
            decreases self.indexes.len() - i,
        {
            if self.indexes[i].0 == *name {
                return Some(i);
            }
            i = i + 1;
        }
        None
    }

    /// The positions of the indexes a command works on. With `all`, every
    /// registered index. Otherwise the one named by `index_name`, else by the
    /// default; a single registered index is taken when neither is given.
    pub fn select_indexes(&self, all: bool, index_name: Option<String>) -> (r: Result<
        Vec<usize>,
        SelectError,
    >)
        ensures
            self.names().len() == 0 ==> r matches Err(SelectError::NoIndexes),
            self.names().len() > 0 && all ==> r is Ok && r->Ok_0@ == Seq::new(
                self.names().len(),
                |i: int| i as usize,
            ),
            self.names().len() > 0 && !all && chosen_name(index_name, self.main.default_index)
                is None ==> if self.names().len() == 1 {
                r is Ok && r->Ok_0@ == seq![0usize]
            } else {
                r matches Err(SelectError::NoIndexChosen)
            },
            self.names().len() > 0 && !all && chosen_name(index_name, self.main.default_index)
                is Some ==> ({
                let key = chosen_name(index_name, self.main.default_index)->0;
                if exists|j: int| 0 <= j < self.names().len() && self.names()[j] == key {
                    r is Ok && r->Ok_0@.len() == 1 && self.names()[r->Ok_0@[0] as int] == key
                        && forall|j: int| 0 <= j < r->Ok_0@[0] ==> self.names()[j] != key
                } else {
                    r is Err && r->Err_0 is NotFound && r->Err_0->NotFound_0@ == key
                }
            }),
            self.wf() && !all && r is Ok ==> forall|j: int|
                0 <= j < self.names().len() && #[trigger] self.names()[j] == self.names()[r->Ok_0@[0] as int]
                    ==> j == r->Ok_0@[0],
    {
        let n = self.indexes.len();
        if n == 0 {
            return Err(SelectError::NoIndexes);
        }
        if all {
            let mut v: Vec<usize> = Vec::new();
            let mut i: usize = 0;
            while i < n
                invariant
                    n == self.indexes@.len(),
                    i <= n,
                    v@ == Seq::new(i as nat, |k: int| k as usize),
                decreases n - i,
            {
                v.push(i);
                i = i + 1;
                assert(v@ =~= Seq::new(i as nat, |k: int| k as usize));
            }
            return Ok(v);
        }
        let chosen = match index_name {
            Some(s) => Some(s),
            None => match &self.main.default_index {
                Some(d) => Some(d.clone()),
                None => None,
            },
        };
        match chosen {
            None => {
                if n == 1 {
                    Ok(vec![0])
                } else {
                    Err(SelectError::NoIndexChosen)
                }
            },
            Some(key) => match self.position(&key) {
                Some(i) => Ok(vec![i]),
                None => Err(SelectError::NotFound(key)),
            },
        }
    }
}

impl IndexConfig {
    /// The glob match options of this index: case sensitive unless set
    /// otherwise, neither a literal separator nor a literal leading dot
    /// required unless set.
    pub fn match_flags(&self) -> (r: MatchFlags)
        ensures
            r.case_sensitive == flag_or(self.case_sensitive, true),
            r.require_literal_separator == flag_or(self.require_literal_separator, false),
            r.require_literal_leading_dot == flag_or(self.require_literal_leading_dot, false),
    {
        MatchFlags {
            case_sensitive: match self.case_sensitive {
                Some(b) => b,
                None => true,
            },
            require_literal_separator: match self.require_literal_separator {
                Some(b) => b,
                None => false,
            },
            require_literal_leading_dot: match self.require_literal_leading_dot {
                Some(b) => b,
                None => false,
            },
        }
    }
}

/// Where the configuration file is looked for when none is given: below
/// `xdg_config_home` where it is set, else below `.config` in `home`.
pub fn default_config_file(xdg_config_home: Option<String>, home: Option<String>) -> (r: Option<
    String,
>)
    ensures
        opt_view(r) == config_file_spec(opt_view(xdg_config_home), opt_view(home)),
{
    match xdg_config_home {
        Some(dir) => Some(dir.concat(CONFIG_FILE_SUFFIX)),
        None => match home {
            Some(h) => Some(h.concat(HOME_CONFIG_SUFFIX).concat(CONFIG_FILE_SUFFIX)),
            None => None,
        },
    }
}

} // verus!
