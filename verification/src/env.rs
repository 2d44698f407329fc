use vstd::prelude::*;
use vstd::string::StringExecFns;

use crate::var::{
    get_var, last_value_of, set_var, str_eq, string_pairs_view, with_pairs, EnvTable,
};

verus! {

/// The name of the marker variable that records which environment was
/// active at the last resolution.
pub open spec fn marker_name() -> Seq<char> {
    "RUST_ENV"@
}

/// The environment code a resolution pass should default to: the value
/// the marker variable already holds, so that a later pass inherits what
/// an earlier one established, or `development` when the marker is unset.
pub fn default_environment_code(table: &EnvTable) -> (r: String)
    requires
        table.wf(),
    ensures
        table@.contains_key(marker_name()) ==> r@ == table@[marker_name()],
        !table@.contains_key(marker_name()) ==> r@ == "development"@,
{
    match get_var(table, "RUST_ENV") {
        Ok(code) => code,
        Err(_) => "development".to_owned(),
    }
}

/// The environment identity: one of the well-known profiles, or a custom
/// profile named by an arbitrary code.
#[derive(Debug, Clone, PartialEq, Eq)]
pub enum Environment {
    Development,
    Test,
    Production,
    Custom(String),
}

impl Environment {
    /// The canonical code of this environment.
    pub open spec fn code_spec(&self) -> Seq<char> {
        match self {
            Environment::Development => "development"@,
            Environment::Test => "test"@,
            Environment::Production => "production"@,
            Environment::Custom(code) => code@,
        }
    }

    /// The environment a code names: a well-known one for its canonical
    /// code, a custom one for any other code.
    pub fn from_code(code: &str) -> (r: Environment)
        ensures
            r.code_spec() == code@,
            r is Development <==> code@ == "development"@,
            r is Test <==> code@ == "test"@,
            r is Production <==> code@ == "production"@,
    {
        proof {
            lemma_canonical_codes_distinct();
        }
        if str_eq(code, "development") {
            Environment::Development
        } else if str_eq(code, "test") {
            Environment::Test
        } else if str_eq(code, "production") {
            Environment::Production
        } else {
            Environment::Custom(code.to_owned())
        }
    }

    /// The environment code as a borrowed string.
    pub fn as_code(&self) -> (r: &str)
        ensures
            r@ == self.code_spec(),
    {
        match self {
            Environment::Development => "development",
            Environment::Test => "test",
            Environment::Production => "production",
            Environment::Custom(code) => code.as_str(),
        }
    }

    /// The environment code as an owned string.
    pub fn to_code(&self) -> (r: String)
        ensures
            r@ == self.code_spec(),
    {
        self.as_code().to_owned()
    }
}

/// The well-known codes name three different environments.
pub proof fn lemma_canonical_codes_distinct()
    ensures
        "development"@ != "test"@,
        "development"@ != "production"@,
        "test"@ != "production"@,
{
    reveal_strlit("development");
    reveal_strlit("test");
    reveal_strlit("production");
    assert("development"@.len() == 11);
    assert("test"@.len() == 4);
    assert("production"@.len() == 10);
}

/// The contents of the candidate files of one resolution pass, in
/// candidate order: `None` stands for a file that could not be read.
pub open spec fn contents_view(cs: Seq<Option<Vec<(String, String)>>>) -> Seq<
    Option<Seq<(Seq<char>, Seq<char>)>>,
> {
    cs.map_values(
        |c: Option<Vec<(String, String)>>|
            match c {
                Some(ps) => Some(string_pairs_view(ps@)),
                None => None,
            },
    )
}

/// Merges the readable files onto the map in candidate order: each file's
/// pairs override whatever earlier files or the map itself held.
pub open spec fn merged_files(
    m: Map<Seq<char>, Seq<char>>,
    files: Seq<Option<Seq<(Seq<char>, Seq<char>)>>>,
) -> Map<Seq<char>, Seq<char>>
    decreases files.len(),
{
    if files.len() == 0 {
        m
    } else {
        let prev = merged_files(m, files.drop_last());
        match files.last() {
            Some(ps) => with_pairs(prev, ps),
            None => prev,
        }
    }
}

/// What one resolution pass leaves in the table: the files merged in
/// candidate order, then the marker variable set to the environment code.
pub open spec fn resolved(
    m: Map<Seq<char>, Seq<char>>,
    files: Seq<Option<Seq<(Seq<char>, Seq<char>)>>>,
    env_code: Seq<char>,
) -> Map<Seq<char>, Seq<char>> {
    merged_files(m, files).insert(marker_name(), env_code)
}

/// The value the highest-order file that defines `k` gives it, if any
/// readable file defines `k`; within a file, the last pair wins.
pub open spec fn files_last_value(
    files: Seq<Option<Seq<(Seq<char>, Seq<char>)>>>,
    k: Seq<char>,
) -> Option<Seq<char>>
    decreases files.len(),
{
    if files.len() == 0 {
        None
    } else {
        let here = match files.last() {
            Some(ps) => last_value_of(ps, k),
            None => None,
        };
        match here {
            Some(v) => Some(v),
            None => files_last_value(files.drop_last(), k),
        }
    }
}

/// What the merge leaves at key `k`: the value from the highest-order
/// file that defines `k`; a key no readable file defines keeps the value
/// the map held before, and is present afterwards exactly if it was
/// before.
pub proof fn lemma_merged_files_get(
    m: Map<Seq<char>, Seq<char>>,
    files: Seq<Option<Seq<(Seq<char>, Seq<char>)>>>,
    k: Seq<char>,
)
    ensures
        ({
            let r = merged_files(m, files);
            match files_last_value(files, k) {
                Some(v) => r.contains_key(k) && r[k] == v,
                None => (r.contains_key(k) <==> m.contains_key(k)) && (m.contains_key(k)
                    ==> r[k] == m[k]),
            }
        }),
    decreases files.len(),
{
    if files.len() > 0 {
        lemma_merged_files_get(m, files.drop_last(), k);
        match files.last() {
            Some(ps) => {
                crate::var::lemma_with_pairs_get(merged_files(m, files.drop_last()), ps, k);
            },
            None => {},
        }
    }
}

/// Precedence law: for any key other than the marker, resolution leaves
/// the value from the highest-order file that defines it, regardless of
/// what the table held before; a key no readable file defines keeps its
/// prior value and presence.
pub proof fn lemma_resolution_precedence(
    m: Map<Seq<char>, Seq<char>>,
    files: Seq<Option<Seq<(Seq<char>, Seq<char>)>>>,
    env_code: Seq<char>,
    k: Seq<char>,
)
    requires
        k != marker_name(),
    ensures
        ({
            let r = resolved(m, files, env_code);
            match files_last_value(files, k) {
                Some(v) => r.contains_key(k) && r[k] == v,
                None => (r.contains_key(k) <==> m.contains_key(k)) && (m.contains_key(k)
                    ==> r[k] == m[k]),
            }
        }),
{
    lemma_merged_files_get(m, files, k);
}

/// Missing-file idempotence: a resolution pass in which no candidate file
/// could be read changes nothing but the marker variable, which it still
/// sets to the environment code.
pub proof fn lemma_missing_files(
    m: Map<Seq<char>, Seq<char>>,
    files: Seq<Option<Seq<(Seq<char>, Seq<char>)>>>,
    env_code: Seq<char>,
)
    requires
        forall|i: int| 0 <= i < files.len() ==> files[i] is None,
    ensures
        resolved(m, files, env_code) == m.insert(marker_name(), env_code),
{
    lemma_merged_files_none(m, files);
}

/// Merging a sequence of unreadable files leaves the map unchanged.
proof fn lemma_merged_files_none(
    m: Map<Seq<char>, Seq<char>>,
    files: Seq<Option<Seq<(Seq<char>, Seq<char>)>>>,
)
    requires
        forall|i: int| 0 <= i < files.len() ==> files[i] is None,
    ensures
        merged_files(m, files) == m,
    decreases files.len(),
{
    if files.len() > 0 {
        assert(files.last() is None);
        lemma_merged_files_none(m, files.drop_last());
    }
}

/// Marker roundtrip: after any resolution pass, the marker variable is
/// present and holds the environment code that was resolved.
pub proof fn lemma_marker_roundtrip(
    m: Map<Seq<char>, Seq<char>>,
    files: Seq<Option<Seq<(Seq<char>, Seq<char>)>>>,
    env_code: Seq<char>,
)
    ensures
        resolved(m, files, env_code).contains_key(marker_name()),
        resolved(m, files, env_code)[marker_name()] == env_code,
{
}

/// Resolution never removes a variable: every key present before a pass
/// is present after it.
pub proof fn lemma_resolved_preserves_keys(
    m: Map<Seq<char>, Seq<char>>,
    files: Seq<Option<Seq<(Seq<char>, Seq<char>)>>>,
    env_code: Seq<char>,
    k: Seq<char>,
)
    requires
        m.contains_key(k),
    ensures
        resolved(m, files, env_code).contains_key(k),
{
    lemma_merged_files_get(m, files, k);
}

/// The four candidate file paths for one resolution pass, in merge order.
pub fn candidate_paths(dir: &str, env_code: &str) -> (r: Vec<String>)
    ensures
        r@.len() == 4,
        r@[0]@ == dir@ + "/.env"@,
        r@[1]@ == dir@ + "/.env.local"@,
        r@[2]@ == dir@ + "/.env."@ + env_code@,
        r@[3]@ == dir@ + "/.env."@ + env_code@ + ".local"@,
{
    let base = dir.to_owned();
    let with_env = base.clone().concat("/.env.").concat(env_code);
    let mut r: Vec<String> = Vec::new();
    r.push(base.clone().concat("/.env"));
    r.push(base.concat("/.env.local"));
    r.push(with_env.clone());
    r.push(with_env.concat(".local"));
    r
}

/// Relies on dotenvy::from_path_iter: parses the env file at `path` into
/// its key/value pairs, in file order. Returns `None` when the file
/// cannot be opened or a line cannot be parsed. The result depends on
/// what is on disk, so nothing is promised of it.
#[verifier::external_body]
fn read_env_file(path: &str) -> Option<Vec<(String, String)>> {
    match dotenvy::from_path_iter(path) {
        Ok(iter) => iter.collect::<Result<Vec<(String, String)>, dotenvy::Error>>().ok(),
        Err(_) => None,
    }
}

/// Applies one file's pairs onto the table in order, overriding existing
/// values.
pub fn merge_pairs(table: &mut EnvTable, pairs: &Vec<(String, String)>)
    requires
        old(table).wf(),
    ensures
        final(table).wf(),
        final(table)@ == with_pairs(old(table)@, string_pairs_view(pairs@)),
{
    let ghost m0 = table@;
    let mut i: usize = 0;
    while i < pairs.len()
        invariant
            i <= pairs.len(),
            table.wf(),
            table@ == with_pairs(m0, string_pairs_view(pairs@).subrange(0, i as int)),
        decreases pairs.len() - i,
    {
        set_var(table, pairs[i].0.as_str(), pairs[i].1.as_str());
        proof {
            let ps = string_pairs_view(pairs@);
            assert(ps.subrange(0, i + 1 as int).drop_last() =~= ps.subrange(0, i as int));
            assert(ps.subrange(0, i + 1 as int).last() == ps[i as int]);
        }
        i = i + 1;
    }
    proof {
        assert(string_pairs_view(pairs@).subrange(0, pairs@.len() as int) =~= string_pairs_view(
            pairs@,
        ));
    }
}

/// Performs one resolution pass over already-read file contents: merges
/// the readable files onto the table in candidate order, then sets the
/// marker variable to the environment code.
pub fn resolve_contents(
    table: &mut EnvTable,
    contents: &Vec<Option<Vec<(String, String)>>>,
    env_code: &str,
)
    requires
        old(table).wf(),
    ensures
        final(table).wf(),
        final(table)@ == resolved(old(table)@, contents_view(contents@), env_code@),
{
    let ghost m0 = table@;
    let mut i: usize = 0;
    while i < contents.len()
        invariant
            i <= contents.len(),
            table.wf(),
            table@ == merged_files(m0, contents_view(contents@).subrange(0, i as int)),
        decreases contents.len() - i,
    {
        match &contents[i] {
            Some(pairs) => {
                merge_pairs(table, pairs);
            },
            None => {},
        }
        proof {
            let fs = contents_view(contents@);
            assert(fs.subrange(0, i + 1 as int).drop_last() =~= fs.subrange(0, i as int));
            assert(fs.subrange(0, i + 1 as int).last() == fs[i as int]);
        }
        i = i + 1;
    }
    proof {
        assert(contents_view(contents@).subrange(0, contents@.len() as int) =~= contents_view(
            contents@,
        ));
    }
    set_var(table, "RUST_ENV", env_code);
}

/// The resolution configuration: a base directory and an environment
/// code, consumed by the terminal [`DotEnv::done`] call.
#[derive(Debug, Clone)]
pub struct DotEnv {
    dir: String,
    environment: String,
}

impl DotEnv {
    /// The configured base directory.
    pub closed spec fn dir_spec(&self) -> Seq<char> {
        self.dir@
    }

    /// The configured environment code.
    pub closed spec fn environment_spec(&self) -> Seq<char> {
        self.environment@
    }

    /// A configuration defaulted from the table: the environment code the
    /// marker variable already holds — so that a second resolution pass
    /// inherits what an earlier one established — or `development` when
    /// the marker is unset. The base directory defaults to `.`; a caller
    /// that knows the process working directory passes it through
    /// [`DotEnv::directory`].
    pub fn new(table: &EnvTable) -> (r: DotEnv)
        requires
            table.wf(),
        ensures
            r.dir_spec() == "."@,
            table@.contains_key(marker_name()) ==> r.environment_spec() == table@[marker_name()],
            !table@.contains_key(marker_name()) ==> r.environment_spec() == "development"@,
    {
        DotEnv { dir: ".".to_owned(), environment: default_environment_code(table) }
    }

    /// A configuration taken over from an existing one.
    pub fn from(dotenv: DotEnv) -> (r: DotEnv)
        ensures
            r == dotenv,
    {
        dotenv
    }

    /// Sets the directory the candidate files are looked up in.
    pub fn directory(self, dir: &str) -> (r: DotEnv)
        ensures
            r.dir_spec() == dir@,
            r.environment_spec() == self.environment_spec(),
    {
        DotEnv { dir: dir.to_owned(), environment: self.environment }
    }

    /// Alias of [`DotEnv::directory`].
    pub fn dir(self, dir: &str) -> (r: DotEnv)
        ensures
            r.dir_spec() == dir@,
            r.environment_spec() == self.environment_spec(),
    {
        DotEnv { dir: dir.to_owned(), environment: self.environment }
    }

    /// Sets the environment code.
    pub fn environment(self, environment: &str) -> (r: DotEnv)
        ensures
            r.dir_spec() == self.dir_spec(),
            r.environment_spec() == environment@,
    {
        DotEnv { dir: self.dir, environment: environment.to_owned() }
    }

    /// Alias of [`DotEnv::environment`].
    pub fn env(self, environment: &str) -> (r: DotEnv)
        ensures
            r.dir_spec() == self.dir_spec(),
            r.environment_spec() == environment@,
    {
        DotEnv { dir: self.dir, environment: environment.to_owned() }
    }

    /// Finishes the initialization: reads the four candidate files from
    /// the configured directory, merges the readable ones onto the table
    /// in candidate order, and sets the marker variable to the configured
    /// environment code. A file that cannot be read is skipped silently.
    pub fn done(self, table: &mut EnvTable)
        requires
            old(table).wf(),
        ensures
            final(table).wf(),
            exists|files: Seq<Option<Seq<(Seq<char>, Seq<char>)>>>|
                files.len() == 4 && final(table)@ == resolved(
                    old(table)@,
                    files,
                    self.environment_spec(),
                ),
            final(table)@.contains_key(marker_name()),
            final(table)@[marker_name()] == self.environment_spec(),
            forall|k: Seq<char>|
                old(table)@.contains_key(k) ==> final(table)@.contains_key(k),
    {
        let ghost m0 = table@;
        let paths = candidate_paths(self.dir.as_str(), self.environment.as_str());
        let mut contents: Vec<Option<Vec<(String, String)>>> = Vec::new();
        contents.push(read_env_file(paths[0].as_str()));
        contents.push(read_env_file(paths[1].as_str()));
        contents.push(read_env_file(paths[2].as_str()));
        contents.push(read_env_file(paths[3].as_str()));
        resolve_contents(table, &contents, self.environment.as_str());
        proof {
            let files = contents_view(contents@);
            assert(files.len() == 4);
            assert(table@ == resolved(m0, files, self.environment@));
            assert forall|k: Seq<char>| m0.contains_key(k) implies table@.contains_key(k) by {
                lemma_resolved_preserves_keys(m0, files, self.environment@, k);
            }
        }
    }
}

} // verus!
