use vstd::prelude::*;

use crate::config::Config;

verus! {

/// A project: its manifest and its source files, each a path with the text
/// that the file holds. In a well-formed project no two files have the same
/// path.
pub struct Project {
    pub files: Vec<(String, String)>,
    pub config: Config,
}

/// The models of a list of files: each path with its text.
pub open spec fn file_models(files: Seq<(String, String)>) -> Seq<(Seq<char>, Seq<char>)> {
    files.map_values(|file: (String, String)| (file.0@, file.1@))
}

/// Whether no two files of a list have the same path.
pub open spec fn distinct_paths(files: Seq<(Seq<char>, Seq<char>)>) -> bool {
    forall|i: int, j: int|
        0 <= i < j < files.len() ==> (#[trigger] files[i]).0 != (#[trigger] files[j]).0
}

/// Whether a file of the list has the path `path`.
pub open spec fn has_path(files: Seq<(Seq<char>, Seq<char>)>, path: Seq<char>) -> bool {
    exists|i: int| 0 <= i < files.len() && (#[trigger] files[i]).0 == path
}

/// The index of a file with the path `path`.
pub open spec fn index_of_path(files: Seq<(Seq<char>, Seq<char>)>, path: Seq<char>) -> int {
    choose|i: int| 0 <= i < files.len() && (#[trigger] files[i]).0 == path
}

/// A list of files with one file put into it: the file takes the place of
/// the file that has its path, and where there is none it is the last.
pub open spec fn put(
    files: Seq<(Seq<char>, Seq<char>)>,
    path: Seq<char>,
    text: Seq<char>,
) -> Seq<(Seq<char>, Seq<char>)> {
    if has_path(files, path) {
        files.update(index_of_path(files, path), (path, text))
    } else {
        files.push((path, text))
    }
}

/// The first `count` files of a list, put one after the other into the
/// empty list.
pub open spec fn collected(files: Seq<(Seq<char>, Seq<char>)>, count: int) -> Seq<
    (Seq<char>, Seq<char>),
>
    decreases count,
{
    if count <= 0 {
        Seq::empty()
    } else {
        put(collected(files, count - 1), files[count - 1].0, files[count - 1].1)
    }
}

/// Putting a file into a list of files with distinct paths gives a list of
/// files with distinct paths.
pub proof fn lemma_put_distinct(files: Seq<(Seq<char>, Seq<char>)>, path: Seq<char>, text: Seq<char>)
    requires
        distinct_paths(files),
    ensures
        distinct_paths(put(files, path, text)),
{
    let after = put(files, path, text);
    if has_path(files, path) {
        let at = index_of_path(files, path);
        assert forall|i: int, j: int| 0 <= i < j < after.len() implies (#[trigger] after[i]).0 != (
        #[trigger] after[j]).0 by {
            assert(after[i].0 == files[i].0);
            assert(after[j].0 == files[j].0);
        }
    } else {
        assert forall|i: int, j: int| 0 <= i < j < after.len() implies (#[trigger] after[i]).0 != (
        #[trigger] after[j]).0 by {
            assert(after[i] == files[i]);
            if j < files.len() {
                assert(after[j] == files[j]);
            }
        }
    }
}

impl Project {
    /// The name of the file that holds a project's manifest.
    pub open spec fn spec_config_file() -> Seq<char> {
        "efs-config.toml"@
    }

    /// What is appended to a project's directory to match its source files:
    /// every file under `src` whose name ends in `.efs`.
    pub open spec fn spec_source_suffix() -> Seq<char> {
        "/src/**/*.efs"@
    }

    /// Whether no two source files of the project have the same path.
    pub open spec fn well_formed(&self) -> bool {
        distinct_paths(file_models(self.files@))
    }

    /// The name of the file that holds a project's manifest.
    pub fn config_file() -> (name: &'static str)
        ensures
            name@ == Self::spec_config_file(),
    {
        "efs-config.toml"
    }

    /// The pattern that matches the source files of the project in the
    /// directory `root`.
    pub fn source_pattern(root: &str) -> (pattern: String)
        ensures
            pattern@ == root@ + Self::spec_source_suffix(),
    {
        let mut pattern = String::from_str(root);
        pattern.append("/src/**/*.efs");
        pattern
    }

    /// The index of the source file with the path `path`, where the project
    /// has one.
    pub fn find_file(&self, path: &String) -> (found: Option<usize>)
        ensures
            match found {
                Some(at) => at < self.files@.len() && self.files@[at as int].0@ == path@,
                None => !has_path(file_models(self.files@), path@),
            },
    {
        let mut at: usize = 0;
        while at < self.files.len()
            invariant
                at <= self.files.len(),
                forall|i: int| 0 <= i < at ==> (#[trigger] self.files@[i]).0@ != path@,
            decreases self.files.len() - at,
        {
            if self.files[at].0 == *path {
                return Some(at);
            }
            at += 1;
        }
        assert forall|i: int| 0 <= i < file_models(self.files@).len() implies (
        #[trigger] file_models(self.files@)[i]).0 != path@ by {
            assert(self.files@[i].0@ != path@);
        }
        None
    }

    /// Puts a source file into the project: it takes the place of the file
    /// that has its path, and where the project has none it is the last.
    pub fn add_file(&mut self, path: String, text: String)
        requires
            old(self).well_formed(),
        ensures
            final(self).well_formed(),
            final(self).config == old(self).config,
            file_models(final(self).files@) == put(file_models(old(self).files@), path@, text@),
    {
        let ghost before = file_models(self.files@);
        proof {
            lemma_put_distinct(before, path@, text@);
        }
        match self.find_file(&path) {
            Some(at) => {
                proof {
                    assert(before[at as int].0 == path@);
                    let chosen = index_of_path(before, path@);
                    assert(before[chosen].0 == path@);
                    assert(chosen == at);
                }
                self.files.set(at, (path, text));
                assert(file_models(self.files@) =~= before.update(at as int, (path@, text@)));
            },
            None => {
                self.files.push((path, text));
                assert(file_models(self.files@) =~= before.push((path@, text@)));
            },
        }
    }

    /// The project with the manifest `config` and the source files `files`,
    /// put into it one after the other: of several files with one path the
    /// last is kept, in the place of the first.
    pub fn assemble(config: Config, files: Vec<(String, String)>) -> (project: Self)
        ensures
            project.config == config,
            project.well_formed(),
            file_models(project.files@) == collected(
                file_models(files@),
                files@.len() as int,
            ),
    {
        let mut project = Project { files: Vec::new(), config };
        let ghost given = file_models(files@);
        assert(file_models(project.files@) =~= collected(given, 0));
        let mut at: usize = 0;
        while at < files.len()
            invariant
                at <= files.len(),
                given == file_models(files@),
                project.config == config,
                project.well_formed(),
                file_models(project.files@) == collected(given, at as int),
            decreases files.len() - at,
        {
            let path = files[at].0.clone();
            let text = files[at].1.clone();
            assert(given[at as int] == (path@, text@));
            project.add_file(path, text);
            at += 1;
        }
        project
    }
}

} // verus!
