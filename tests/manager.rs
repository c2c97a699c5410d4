use std::cell::{Cell, RefCell};

use friday::manager::select_match;
use friday::{DefaultManager, Error, Manager, Repo, Section};
use indexmap::IndexMap;

struct FakeRepo {
    tasks: Vec<String>,
    deleted: RefCell<Vec<(String, Section)>>,
    created: RefCell<Vec<(String, Section)>>,
    list_calls: Cell<usize>,
}

impl FakeRepo {
    fn with(tasks: &[&str]) -> FakeRepo {
        FakeRepo {
            tasks: tasks.iter().map(|s| s.to_string()).collect(),
            deleted: RefCell::new(Vec::new()),
            created: RefCell::new(Vec::new()),
            list_calls: Cell::new(0),
        }
    }
}

impl Repo for FakeRepo {
    fn create(&self, task: &str, section: Section) -> Result<(), Error> {
        self.created.borrow_mut().push((task.to_string(), section));
        Ok(())
    }

    fn list(&self, _section: Section) -> Result<Vec<String>, Error> {
        self.list_calls.set(self.list_calls.get() + 1);
        Ok(self.tasks.clone())
    }

    fn list_all(&self) -> Result<IndexMap<Section, Vec<String>>, Error> {
        let mut m = IndexMap::new();
        m.insert(Section::Dump, self.tasks.clone());
        Ok(m)
    }

    fn delete(&self, task: &str, section: Section) -> Result<(), Error> {
        self.deleted.borrow_mut().push((task.to_string(), section));
        Ok(())
    }
}

#[test]
fn manager_test_rm_errors_on_multiple_matches() {
    let mngr = DefaultManager::new(FakeRepo::with(&["some_task", "some_other_task"]));
    assert!(mngr.rm("some", Some("section")).is_err());
}

#[test]
fn manager_test_rm_errors_on_no_matches() {
    let mngr = DefaultManager::new(FakeRepo::with(&[]));
    assert!(mngr.rm("some", Some("section")).is_err());
}

#[test]
fn manager_test_rm_works() {
    let probe = Probe(FakeRepo::with(&["some", "other"]));
    let mngr = DefaultManager::new(&probe);
    assert!(mngr.rm("some", Some("dump")).is_ok());
    assert_eq!(probe.0.list_calls.get(), 1);
    assert_eq!(probe.0.deleted.borrow().clone(), vec![("some".to_string(), Section::Dump)]);
}

struct Probe(FakeRepo);
impl Repo for &Probe {
    fn create(&self, task: &str, section: Section) -> Result<(), Error> {
        self.0.create(task, section)
    }
    fn list(&self, section: Section) -> Result<Vec<String>, Error> {
        self.0.list(section)
    }
    fn list_all(&self) -> Result<IndexMap<Section, Vec<String>>, Error> {
        self.0.list_all()
    }
    fn delete(&self, task: &str, section: Section) -> Result<(), Error> {
        self.0.delete(task, section)
    }
}

#[test]
fn rm_deletes_the_single_match_in_its_section() {
    let probe = Probe(FakeRepo::with(&["buy milk", "call bob"]));
    let mngr = DefaultManager::new(&probe);
    assert!(mngr.rm("milk", Some("Work")).is_ok());
    assert_eq!(
        probe.0.deleted.borrow().clone(),
        vec![("buy milk".to_string(), Section::Custom("work".to_string()))]
    );
    assert!(mngr.add("new thing", None).is_ok());
    assert_eq!(probe.0.created.borrow().clone(), vec![("new thing".to_string(), Section::Dump)]);
}

#[test]
fn rm_error_messages() {
    let tasks = vec!["some_task".to_string(), "some_other_task".to_string()];
    assert_eq!(
        select_match(&tasks, "some"),
        Err(Error::InvalidArgument("found more than one match for pattern some".to_string()))
    );
    assert_eq!(
        select_match(&tasks, "zzz"),
        Err(Error::InvalidArgument("no match found for pattern zzz".to_string()))
    );
    assert_eq!(select_match(&tasks, "other"), Ok("some_other_task".to_string()));
}

#[test]
fn blank_task_is_refused() {
    let mngr = DefaultManager::new(FakeRepo::with(&[]));
    assert_eq!(
        mngr.add("   ", None),
        Err(Error::InvalidArgument("expected non-empty task".to_string()))
    );
}

#[test]
fn list_and_sections_come_from_the_repo() {
    let mngr = DefaultManager::new(FakeRepo::with(&["a", "b"]));
    assert_eq!(Manager::list(&mngr, None).unwrap(), vec!["a".to_string(), "b".to_string()]);
    let all = mngr.sections().unwrap();
    assert_eq!(all.get(&Section::Dump), Some(&vec!["a".to_string(), "b".to_string()]));
}

#[test]
fn section_names() {
    assert_eq!(Section::parse(""), Section::Dump);
    assert_eq!(Section::parse("Dump"), Section::Dump);
    assert_eq!(Section::parse("Work"), Section::Custom("work".to_string()));
    assert_eq!(Section::from_option(None), Section::Dump);
    assert_eq!(Section::Custom("x".to_string()).name(), "x");
    assert_eq!(Section::Dump.name(), "dump");
    assert_eq!(Section::default(), Section::Dump);
}
