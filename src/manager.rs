//! The task manager: the operations the HTTP handlers and the command line
//! use, on top of a storage back end.
use vstd::prelude::*;

use crate::error::Error;
use crate::router::{contains_bytes, contains_slice};
use crate::section::{option_section_id, section_id, Section};
use crate::text::{join_text, trim, trim_of};
use indexmap::IndexMap;
use vstd::utf8::*;

verus! {

#[verifier::external_type_specification]
#[verifier::external_body]
#[verifier::reject_recursive_types(K)]
#[verifier::reject_recursive_types(V)]
#[verifier::reject_recursive_types(S)]
pub struct ExIndexMap<K, V, S>(IndexMap<K, V, S>);

/// Where tasks are stored, section by section.
pub trait Repo {
    /// Whether adding `task` to section `sec` may end with `r`. An
    /// implementation that does not say admits every outcome.
    open spec fn creates(&self, task: Seq<char>, sec: Option<Seq<char>>, r: Result<(), Error>) -> bool {
        true
    }

    /// Whether listing section `sec` may give `r`.
    open spec fn lists(&self, sec: Option<Seq<char>>, r: Result<Vec<String>, Error>) -> bool {
        true
    }

    /// Whether listing every section may give `r`.
    open spec fn lists_all(&self, r: Result<IndexMap<Section, Vec<String>>, Error>) -> bool {
        true
    }

    /// Whether removing `task` from section `sec` may end with `r`.
    open spec fn deletes(&self, task: Seq<char>, sec: Option<Seq<char>>, r: Result<(), Error>) -> bool {
        true
    }

    /// Adds a task to a section.
    fn create(&self, task: &str, section: Section) -> (r: Result<(), Error>)
        ensures
            self.creates(task@, section_id(section), r),
    ;

    /// The tasks of a section, in order.
    fn list(&self, section: Section) -> (r: Result<Vec<String>, Error>)
        ensures
            self.lists(section_id(section), r),
    ;

    /// Every section with its tasks, in the order the sections appear.
    fn list_all(&self) -> (r: Result<IndexMap<Section, Vec<String>>, Error>)
        ensures
            self.lists_all(r),
    ;

    /// Removes a task from a section.
    fn delete(&self, task: &str, section: Section) -> (r: Result<(), Error>)
        ensures
            self.deletes(task@, section_id(section), r),
    ;
}

/// The task-manager capability handlers rely on.
pub trait Manager {
    fn add(&self, task: &str, section: Option<&str>) -> Result<(), Error>;

    fn list(&self, section: Option<&str>) -> Result<Vec<String>, Error>;

    fn sections(&self) -> Result<IndexMap<Section, Vec<String>>, Error>;

    fn rm(&self, pattern: &str, section: Option<&str>) -> Result<(), Error>;
}

/// The tasks among `ts` whose text contains `pattern`, in order.
pub open spec fn matching_tasks(ts: Seq<Seq<char>>, pattern: Seq<char>) -> Seq<Seq<char>>
    decreases ts.len(),
{
    if ts.len() == 0 {
        Seq::empty()
    } else {
        let rest = matching_tasks(ts.drop_last(), pattern);
        if contains_bytes(encode_utf8(ts.last()), encode_utf8(pattern)) {
            rest.push(ts.last())
        } else {
            rest
        }
    }
}

/// The texts of a list of tasks.
pub open spec fn texts(ts: Seq<String>) -> Seq<Seq<char>> {
    ts.map_values(|t: String| t@)
}

/// Whether `r` is an `InvalidArgument` error with exactly this message.
pub open spec fn is_invalid_argument<T>(r: Result<T, Error>, message: Seq<char>) -> bool {
    match r {
        Err(Error::InvalidArgument(m)) => m@ == message,
        _ => false,
    }
}

/// Picks the one task that contains `pattern`: no match and more than one
/// match are both errors.
pub fn select_match(tasks: &Vec<String>, pattern: &str) -> (r: Result<String, Error>)
    ensures
        matching_tasks(texts(tasks@), pattern@).len() == 1 ==> r is Ok && r->Ok_0@ == matching_tasks(
            texts(tasks@),
            pattern@,
        )[0],
        matching_tasks(texts(tasks@), pattern@).len() == 0 ==> is_invalid_argument(
            r,
            "no match found for pattern "@ + pattern@,
        ),
        matching_tasks(texts(tasks@), pattern@).len() > 1 ==> is_invalid_argument(
            r,
            "found more than one match for pattern "@ + pattern@,
        ),
{
    let p = pattern.as_bytes();
    let mut count: usize = 0;
    let mut first: usize = 0;
    let mut i: usize = 0;
    while i < tasks.len()
        invariant
            0 <= i <= tasks@.len(),
            p@ == encode_utf8(pattern@),
            count == matching_tasks(texts(tasks@).take(i as int), pattern@).len(),
            count <= i,
            count >= 1 ==> first < i && tasks@[first as int]@ == matching_tasks(
                texts(tasks@).take(i as int),
                pattern@,
            )[0],
        decreases tasks@.len() - i,
    {
        let ghost before = matching_tasks(texts(tasks@).take(i as int), pattern@);
        proof {
            assert(texts(tasks@).take(i + 1).drop_last() =~= texts(tasks@).take(i as int));
            assert(texts(tasks@).take(i + 1).last() == tasks@[i as int]@);
        }
        if contains_slice(tasks[i].as_str().as_bytes(), p) {
            if count == 0 {
                first = i;
            }
            proof {
                let after = matching_tasks(texts(tasks@).take(i + 1), pattern@);
                assert(after == before.push(tasks@[i as int]@));
                assert(after[0] == (if before.len() == 0 { tasks@[i as int]@ } else { before[0] }));
            }
            count = count + 1;
        }
        i = i + 1;
    }
    proof {
        assert(texts(tasks@).take(i as int) =~= texts(tasks@));
    }
    if count == 0 {
        Err(Error::InvalidArgument(join_text("no match found for pattern ", pattern)))
    } else if count > 1 {
        Err(Error::InvalidArgument(join_text("found more than one match for pattern ", pattern)))
    } else {
        Ok(tasks[first].clone())
    }
}

/// The manager on top of a storage back end.
pub struct DefaultManager<T: Repo> {
    repo: T,
}

impl<T: Repo> DefaultManager<T> {
    /// A manager over `repo`.
    pub fn new(repo: T) -> (r: DefaultManager<T>)
        ensures
            r.repo() == repo,
    {
        DefaultManager { repo }
    }

    /// The storage back end.
    pub closed spec fn repo(&self) -> T {
        self.repo
    }

    /// What removing the one task of section `sec` that contains `pattern`
    /// may end with: the back end lists the section; a listing error is
    /// passed on; a single match is deleted and the deletion's outcome is
    /// returned; no match and several matches are errors.
    pub open spec fn removes(&self, pattern: Seq<char>, sec: Option<Seq<char>>, r: Result<(), Error>) -> bool {
        exists|listed: Result<Vec<String>, Error>|
            #[trigger] self.repo().lists(sec, listed) && match listed {
                Err(e) => r == Err::<(), Error>(e),
                Ok(ts) => {
                    let ms = matching_tasks(texts(ts@), pattern);
                    if ms.len() == 1 {
                        self.repo().deletes(ms[0], sec, r)
                    } else if ms.len() == 0 {
                        is_invalid_argument(r, "no match found for pattern "@ + pattern)
                    } else {
                        is_invalid_argument(r, "found more than one match for pattern "@ + pattern)
                    }
                },
            }
    }

    /// Adds a task to a section (the default one when none is named); a task
    /// that is empty once trimmed is refused before storage is touched, any
    /// other is handed to the back end, whose outcome is returned.
    pub fn add(&self, task: &str, section: Option<&str>) -> (r: Result<(), Error>)
        ensures
            trim_of(task@).len() == 0 ==> is_invalid_argument(r, "expected non-empty task"@),
            trim_of(task@).len() != 0 ==> self.repo().creates(task@, option_section_id(section), r),
    {
        if trim(task).is_empty() {
            return Err(Error::InvalidArgument("expected non-empty task".to_owned()));
        }
        self.repo.create(task, Section::from_option(section))
    }

    /// Every section with its tasks, as the back end lists them.
    pub fn sections(&self) -> (r: Result<IndexMap<Section, Vec<String>>, Error>)
        ensures
            self.repo().lists_all(r),
    {
        self.repo.list_all()
    }

    /// The tasks of a section (the default one when none is named), as the
    /// back end lists them.
    pub fn list(&self, section: Option<&str>) -> (r: Result<Vec<String>, Error>)
        ensures
            self.repo().lists(option_section_id(section), r),
    {
        self.repo.list(Section::from_option(section))
    }

    /// Removes the one task of a section that contains `pattern`; no match
    /// and several matches are errors, and nothing is removed then.
    pub fn rm(&self, pattern: &str, section: Option<&str>) -> (r: Result<(), Error>)
        ensures
            self.removes(pattern@, option_section_id(section), r),
    {
        let ghost sec = option_section_id(section);
        let listed = self.repo.list(Section::from_option(section));
        let ghost seen = listed;
        let tasks = match listed {
            Ok(t) => t,
            Err(e) => {
                assert(self.repo().lists(sec, seen));
                return Err(e);
            },
        };
        let task = match select_match(&tasks, pattern) {
            Ok(t) => t,
            Err(e) => {
                assert(self.repo().lists(sec, seen));
                return Err(e);
            },
        };
        let r = self.repo.delete(task.as_str(), Section::from_option(section));
        assert(self.repo().lists(sec, seen));
        r
    }
}

impl<T: Repo> Manager for DefaultManager<T> {
    fn add(&self, task: &str, section: Option<&str>) -> Result<(), Error> {
        DefaultManager::add(self, task, section)
    }

    fn list(&self, section: Option<&str>) -> Result<Vec<String>, Error> {
        DefaultManager::list(self, section)
    }

    fn sections(&self) -> Result<IndexMap<Section, Vec<String>>, Error> {
        DefaultManager::sections(self)
    }

    fn rm(&self, pattern: &str, section: Option<&str>) -> Result<(), Error> {
        DefaultManager::rm(self, pattern, section)
    }
}

} // verus!
