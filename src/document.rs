//! The to-do file as lines: headings open sections, lines starting with `-`
//! are tasks, everything else is kept as it is.
use vstd::prelude::*;

use crate::error::Error;
use indexmap::IndexMap;
use crate::section::{id_of_name, section_id, Section};
use crate::text::{join_all, join_text, joined_by, no_newline, split_lines, split_words, trim, trim_of, views, words_of};
use vstd::string::StrSliceExecFns;

verus! {

/// What a line of the file is.
#[derive(Clone, Copy, Debug, PartialEq, Eq, Structural)]
pub enum LineKind {
    /// Kept as it is, read for nothing.
    Ignored,
    /// A task: the trimmed line starts with `-`.
    Task,
    /// A section heading: the trimmed line starts with `##`.
    Heading,
}

/// The kind of a line, read from its trimmed text.
pub open spec fn kind_of(s: Seq<char>) -> LineKind {
    let t = trim_of(s);
    if t.len() > 0 && t[0] == '-' {
        LineKind::Task
    } else if t.len() > 1 && t[0] == '#' && t[1] == '#' {
        LineKind::Heading
    } else {
        LineKind::Ignored
    }
}

/// What a task or heading says: its words after the first (the marker),
/// joined by single spaces; an ignored line says its whole text.
pub open spec fn stripped_text(kind: LineKind, text: Seq<char>) -> Seq<char> {
    if kind is Ignored {
        text
    } else {
        let w = words_of(text);
        if w.len() == 0 {
            Seq::empty()
        } else {
            joined_by(w.drop_first(), " "@)
        }
    }
}

/// The section in effect at line `i`: the one the nearest heading at or
/// above it names, else the default one.
pub open spec fn section_at(lines: Seq<Seq<char>>, i: int) -> Option<Seq<char>>
    decreases i,
{
    if i < 0 || i >= lines.len() {
        None
    } else if kind_of(lines[i]) is Heading {
        id_of_name(stripped_text(LineKind::Heading, lines[i]))
    } else if i == 0 {
        None
    } else {
        section_at(lines, i - 1)
    }
}

/// A line of the file, with its text as it was read.
#[derive(Clone, Debug)]
pub enum LineContent {
    Ignored(String),
    Task(String),
    Section(String),
}

impl LineContent {
    pub open spec fn kind(&self) -> LineKind {
        match self {
            LineContent::Ignored(_) => LineKind::Ignored,
            LineContent::Task(_) => LineKind::Task,
            LineContent::Section(_) => LineKind::Heading,
        }
    }

    pub open spec fn text_view(&self) -> Seq<char> {
        match self {
            LineContent::Ignored(x) => x@,
            LineContent::Task(x) => x@,
            LineContent::Section(x) => x@,
        }
    }

    /// Reads a line: `-` first makes a task, `##` first a heading (leading
    /// whitespace aside); the text is kept as it is.
    pub fn parse(s: &str) -> (r: LineContent)
        ensures
            r.kind() == kind_of(s@),
            r.text_view() == s@,
    {
        let t = trim(s);
        let n = t.unicode_len();
        if n > 0 && t.get_char(0) == '-' {
            LineContent::Task(s.to_owned())
        } else if n > 1 && t.get_char(0) == '#' && t.get_char(1) == '#' {
            LineContent::Section(s.to_owned())
        } else {
            LineContent::Ignored(s.to_owned())
        }
    }

    /// The line's text as it was read.
    pub fn text(&self) -> (r: &String)
        ensures
            r@ == self.text_view(),
    {
        match self {
            LineContent::Ignored(x) => x,
            LineContent::Task(x) => x,
            LineContent::Section(x) => x,
        }
    }

    /// What the line says without its marker.
    pub fn stripped(&self) -> (r: String)
        ensures
            r@ == stripped_text(self.kind(), self.text_view()),
    {
        if let LineContent::Ignored(x) = self {
            return x.clone();
        }
        let words = split_words(self.text().as_str());
        let ghost ws = views(words@);
        if words.len() == 0 {
            return String::new();
        }
        let mut rest: Vec<String> = Vec::new();
        let mut i: usize = 1;
        while i < words.len()
            invariant
                1 <= i <= words@.len(),
                ws == views(words@),
                views(rest@) == ws.subrange(1, i as int),
            decreases words@.len() - i,
        {
            let ghost before = rest@;
            let w = words[i].clone();
            assert(w@ == ws[i as int]);
            rest.push(w);
            assert(rest@ == before.push(w));
            i = i + 1;
            assert(views(rest@) =~= ws.subrange(1, i as int)) by {
                assert(views(before).len() == before.len());
                assert(ws.subrange(1, i - 1).len() == i - 2);
                assert(views(before) == ws.subrange(1, i - 1));
                assert(before.len() == i - 2);
                assert forall|k: int| 0 <= k < rest@.len() implies #[trigger] rest@[k]@ == ws[k + 1] by {
                    if k < before.len() {
                        assert(views(before)[k] == ws.subrange(1, i - 1)[k]);
                        assert(rest@[k] == before[k]);
                    } else {
                        assert(k == i - 2);
                        assert(rest@[k] == w);
                    }
                }
            }
        }
        assert(ws.subrange(1, words@.len() as int) =~= ws.drop_first());
        join_all(&rest, " ")
    }
}

/// A line with the section it belongs to.
pub struct Line {
    pub section: Section,
    pub content: LineContent,
}

/// What a line is, as mathematical values: its section, its kind, its text.
pub open spec fn line_view(l: Line) -> (Option<Seq<char>>, LineKind, Seq<char>) {
    (section_id(l.section), l.content.kind(), l.content.text_view())
}

/// The texts of a document's lines.
pub open spec fn texts(v: Seq<(Option<Seq<char>>, LineKind, Seq<char>)>) -> Seq<Seq<char>> {
    v.map_values(|l: (Option<Seq<char>>, LineKind, Seq<char>)| l.2)
}


/// A line as mathematical values: section, kind, text.
pub type LineView = (Option<Seq<char>>, LineKind, Seq<char>);

/// What the task lines of section `sec` among the first `n` lines say, in order.
pub open spec fn section_tasks(v: Seq<LineView>, sec: Option<Seq<char>>, n: int) -> Seq<Seq<char>>
    decreases n,
{
    if n <= 0 || n > v.len() {
        Seq::empty()
    } else {
        let prev = section_tasks(v, sec, n - 1);
        let l = v[n - 1];
        if l.1 is Task && l.0 == sec {
            prev.push(stripped_text(LineKind::Task, l.2))
        } else {
            prev
        }
    }
}

/// The first of the first `n` lines that is a task of section `sec` saying `task`.
pub open spec fn find_task(v: Seq<LineView>, sec: Option<Seq<char>>, task: Seq<char>, n: int) -> Option<int>
    decreases n,
{
    if n <= 0 || n > v.len() {
        None
    } else {
        match find_task(v, sec, task, n - 1) {
            Some(i) => Some(i),
            None => if v[n - 1].1 is Task && v[n - 1].0 == sec && stripped_text(LineKind::Task, v[n - 1].2) == task {
                Some(n - 1)
            } else {
                None
            },
        }
    }
}

/// The first of the first `n` lines that is not ignored and belongs to `sec`.
pub open spec fn first_in_section(v: Seq<LineView>, sec: Option<Seq<char>>, n: int) -> Option<int>
    decreases n,
{
    if n <= 0 || n > v.len() {
        None
    } else {
        match first_in_section(v, sec, n - 1) {
            Some(i) => Some(i),
            None => if !(v[n - 1].1 is Ignored) && v[n - 1].0 == sec {
                Some(n - 1)
            } else {
                None
            },
        }
    }
}

/// The first heading among the first `n` lines.
pub open spec fn first_heading(v: Seq<LineView>, n: int) -> Option<int>
    decreases n,
{
    if n <= 0 || n > v.len() {
        None
    } else {
        match first_heading(v, n - 1) {
            Some(i) => Some(i),
            None => if v[n - 1].1 is Heading {
                Some(n - 1)
            } else {
                None
            },
        }
    }
}

/// The last line of the run of section `sec` that goes on from `j` (the run's
/// last line so far being `last`): ignored lines are passed over, a line of
/// another section ends the run.
pub open spec fn run_end(v: Seq<LineView>, sec: Option<Seq<char>>, j: int, last: int) -> int
    decreases v.len() - j,
{
    if j < 0 || j >= v.len() {
        last
    } else if v[j].1 is Ignored {
        run_end(v, sec, j + 1, last)
    } else if v[j].0 == sec {
        run_end(v, sec, j + 1, j)
    } else {
        last
    }
}

/// A found prefix search stays found on longer prefixes.
proof fn lemma_find_task_stable(v: Seq<LineView>, sec: Option<Seq<char>>, task: Seq<char>, n: int, m: int)
    requires
        0 <= n <= m <= v.len(),
        find_task(v, sec, task, n) is Some,
    ensures
        find_task(v, sec, task, m) == find_task(v, sec, task, n),
    decreases m - n,
{
    if m > n {
        lemma_find_task_stable(v, sec, task, n, m - 1);
    }
}

proof fn lemma_first_in_section_stable(v: Seq<LineView>, sec: Option<Seq<char>>, n: int, m: int)
    requires
        0 <= n <= m <= v.len(),
        first_in_section(v, sec, n) is Some,
    ensures
        first_in_section(v, sec, m) == first_in_section(v, sec, n),
    decreases m - n,
{
    if m > n {
        lemma_first_in_section_stable(v, sec, n, m - 1);
    }
}

proof fn lemma_first_heading_stable(v: Seq<LineView>, n: int, m: int)
    requires
        0 <= n <= m <= v.len(),
        first_heading(v, n) is Some,
    ensures
        first_heading(v, m) == first_heading(v, n),
    decreases m - n,
{
    if m > n {
        lemma_first_heading_stable(v, n, m - 1);
    }
}

proof fn lemma_run_end_bounds(v: Seq<LineView>, sec: Option<Seq<char>>, j: int, last: int)
    requires
        0 <= last < j,
        last < v.len(),
    ensures
        last <= run_end(v, sec, j, last) < v.len(),
    decreases v.len() - j,
{
    if j < v.len() {
        if v[j].1 is Ignored {
            lemma_run_end_bounds(v, sec, j + 1, last);
        } else if v[j].0 == sec {
            lemma_run_end_bounds(v, sec, j + 1, j);
        }
    }
}

/// Where a new task of section `sec` goes, and whether a heading goes before it:
/// after the first run of the section's lines; else a new heading goes before
/// the first heading; else heading and task go at the end.
pub open spec fn added_lines(v: Seq<LineView>, sec: Option<Seq<char>>, heading: Seq<char>, task_line: Seq<char>) -> Seq<LineView> {
    match first_in_section(v, sec, v.len() as int) {
        Some(f) => v.insert(run_end(v, sec, f + 1, f) + 1, (sec, LineKind::Task, task_line)),
        None => match first_heading(v, v.len() as int) {
            Some(h) => v.insert(h, (sec, LineKind::Heading, heading)).insert(h + 1, (sec, LineKind::Task, task_line)),
            None => v.push((sec, LineKind::Heading, heading)).push((sec, LineKind::Task, task_line)),
        },
    }
}

/// The name a section's heading shows: `dump` for the default section.
pub open spec fn heading_name(sec: Option<Seq<char>>) -> Seq<char> {
    match sec {
        None => "dump"@,
        Some(n) => n,
    }
}


/// The sections that have tasks among the first `n` lines, in the order of
/// their first task.
pub open spec fn task_sections(v: Seq<LineView>, n: int) -> Seq<Option<Seq<char>>>
    decreases n,
{
    if n <= 0 || n > v.len() {
        Seq::empty()
    } else {
        let prev = task_sections(v, n - 1);
        if v[n - 1].1 is Task && !prev.contains(v[n - 1].0) {
            prev.push(v[n - 1].0)
        } else {
            prev
        }
    }
}

/// A section with no task among the first `n` lines has an empty task list there.
proof fn lemma_absent_section_empty(v: Seq<LineView>, k: Option<Seq<char>>, n: int)
    requires
        0 <= n <= v.len(),
        !task_sections(v, n).contains(k),
    ensures
        section_tasks(v, k, n).len() == 0,
    decreases n,
{
    if n > 0 {
        let prev = task_sections(v, n - 1);
        if v[n - 1].1 is Task && !prev.contains(v[n - 1].0) {
            assert(task_sections(v, n) == prev.push(v[n - 1].0));
            assert forall|x: Option<Seq<char>>| prev.contains(x) implies task_sections(v, n).contains(x) by {
                let j = choose|j: int| 0 <= j < prev.len() && prev[j] == x;
                assert(task_sections(v, n)[j] == x);
            }
            if v[n - 1].0 == k {
                assert(task_sections(v, n)[prev.len() as int] == k);
            }
        }
        lemma_absent_section_empty(v, k, n - 1);
    }
}

/// What an index map of sections holds, in order: each section's identity
/// with the texts of its tasks.
pub uninterp spec fn section_entries(m: IndexMap<Section, Vec<String>>) -> Seq<(Option<Seq<char>>, Seq<Seq<char>>)>;

/// Relies on `IndexMap`'s `FromIterator` (an `insert` per pair): entries keep
/// the order the pairs come in, and pairs with distinct keys each get an entry.
#[verifier::external_body]
fn collect_sections(keys: Vec<Section>, lists: Vec<Vec<String>>) -> (r: IndexMap<Section, Vec<String>>)
    requires
        keys@.len() == lists@.len(),
        forall|a: int, b: int| 0 <= a < b < keys@.len() ==> section_id(#[trigger] keys@[a]) != section_id(#[trigger] keys@[b]),
    ensures
        section_entries(r).len() == keys@.len(),
        forall|g: int| 0 <= g < keys@.len() ==> #[trigger] section_entries(r)[g] == (section_id(keys@[g]), views(lists@[g]@)),
{
    keys.into_iter().zip(lists).collect()
}

/// The lines of the to-do file.
pub struct Document {
    lines: Vec<Line>,
}

impl View for Document {
    type V = Seq<(Option<Seq<char>>, LineKind, Seq<char>)>;

    closed spec fn view(&self) -> Seq<(Option<Seq<char>>, LineKind, Seq<char>)> {
        self.lines@.map_values(|l: Line| line_view(l))
    }
}

impl Document {
    /// What a new to-do file holds.
    pub fn template() -> (r: &'static str) {
        "# It's friday my dudes\n\n## todo\n\n- start here\n\n<!-- this is a comment ignored by default -->\n## dump\n\n- this where stuff lands by default\n"
    }

    /// The document whose lines are `pieces`: each line's kind is read from
    /// its text, and its section is the one in effect there.
    pub fn from_lines(pieces: &Vec<String>) -> (r: Document)
        ensures
            r@.len() == pieces@.len(),
            forall|i: int| 0 <= i < pieces@.len() ==> #[trigger] r@[i] == (
                section_at(views(pieces@), i),
                kind_of(pieces@[i]@),
                pieces@[i]@,
            ),
    {
        let ghost pv = views(pieces@);
        let mut lines: Vec<Line> = Vec::new();
        let mut current = Section::Dump;
        let mut i: usize = 0;
        while i < pieces.len()
            invariant
                0 <= i <= pieces@.len(),
                pv == views(pieces@),
                lines@.len() == i,
                i > 0 ==> section_id(current) == section_at(pv, i - 1),
                i == 0 ==> section_id(current) == None::<Seq<char>>,
                forall|j: int| 0 <= j < i ==> #[trigger] line_view(lines@[j]) == (
                    section_at(pv, j),
                    kind_of(pv[j]),
                    pv[j],
                ),
            decreases pieces@.len() - i,
        {
            let content = LineContent::parse(pieces[i].as_str());
            if let LineContent::Section(_) = content {
                current = Section::parse(content.stripped().as_str());
            }
            lines.push(Line { section: current.copy(), content });
            i = i + 1;
        }
        let r = Document { lines };
        assert forall|i: int| 0 <= i < pieces@.len() implies #[trigger] r@[i] == (
            section_at(pv, i),
            kind_of(pieces@[i]@),
            pieces@[i]@,
        ) by {
            assert(line_view(r.lines@[i]) == r@[i]);
        }
        r
    }

    /// Reads the text of the file: one line per line feed-separated piece.
    /// Rendering the result gives the text back unchanged.
    pub fn parse(content: &str) -> (r: Document)
        ensures
            joined_by(texts(r@), "\n"@) == content@,
            forall|i: int| 0 <= i < r@.len() ==> no_newline(#[trigger] r@[i].2),
            forall|i: int| 0 <= i < r@.len() ==> (#[trigger] r@[i]).1 == kind_of(r@[i].2),
            forall|i: int| 0 <= i < r@.len() ==> (#[trigger] r@[i]).0 == section_at(texts(r@), i),
    {
        let pieces = split_lines(content);
        let r = Document::from_lines(&pieces);
        let ghost pv = views(pieces@);
        assert(texts(r@) =~= pv);
        r
    }

    /// What the task lines of a section say, in order; a section without
    /// tasks is not found.
    pub fn list(&self, section: &Section) -> (r: Result<Vec<String>, Error>)
        ensures
            section_tasks(self@, section_id(*section), self@.len() as int).len() == 0 ==> r is Err
                && r->Err_0 is NotFound,
            section_tasks(self@, section_id(*section), self@.len() as int).len() > 0 ==> r is Ok
                && views(r->Ok_0@) == section_tasks(self@, section_id(*section), self@.len() as int),
    {
        let ghost sec = section_id(*section);
        let mut out: Vec<String> = Vec::new();
        let mut i: usize = 0;
        while i < self.lines.len()
            invariant
                0 <= i <= self.lines@.len(),
                self@.len() == self.lines@.len(),
                sec == section_id(*section),
                views(out@) == section_tasks(self@, sec, i as int),
            decreases self.lines@.len() - i,
        {
            let line = &self.lines[i];
            proof {
                assert(self@[i as int] == line_view(*line));
            }
            if let LineContent::Task(_) = line.content {
                if line.section.same(section) {
                    let ghost before = out@;
                    let t = line.content.stripped();
                    out.push(t);
                    proof {
                        assert(views(before).len() == before.len());
                        assert(views(out@) =~= views(before).push(t@)) by {
                            assert forall|k: int| 0 <= k < out@.len() implies #[trigger] views(out@)[k] == views(before).push(t@)[k] by {
                                if k < before.len() {
                                    assert(out@[k] == before[k]);
                                } else {
                                    assert(out@[k] == t);
                                }
                            }
                        }
                    }
                }
            }
            i = i + 1;
        }
        if out.len() == 0 {
            let name = section.name();
            return Err(Error::NotFound(join_text("section ", name.as_str())));
        }
        Ok(out)
    }

    /// Removes the first task of a section that says `task`; says whether
    /// one was there. Nothing else changes.
    pub fn remove_task(&mut self, task: &str, section: &Section) -> (removed: bool)
        ensures
            match find_task(old(self)@, section_id(*section), task@, old(self)@.len() as int) {
                Some(i) => removed && final(self)@ == old(self)@.remove(i),
                None => !removed && final(self)@ == old(self)@,
            },
    {
        let ghost sec = section_id(*section);
        let wanted = task.to_owned();
        let mut i: usize = 0;
        while i < self.lines.len()
            invariant
                0 <= i <= self.lines@.len(),
                self@.len() == self.lines@.len(),
                sec == section_id(*section),
                wanted@ == task@,
                self.lines@ == old(self).lines@,
                find_task(self@, sec, task@, i as int) is None,
            decreases self.lines@.len() - i,
        {
            let line = &self.lines[i];
            proof {
                assert(self@[i as int] == line_view(*line));
            }
            let hit = match line.content {
                LineContent::Task(_) => line.section.same(section) && line.content.stripped() == wanted,
                _ => false,
            };
            if hit {
                proof {
                    lemma_find_task_stable(self@, sec, task@, i + 1, self@.len() as int);
                }
                let ghost before = self@;
                let ghost before_lines = self.lines@;
                self.lines.remove(i);
                proof {
                    assert(self@ =~= before.remove(i as int)) by {
                        assert forall|k: int| 0 <= k < self@.len() implies #[trigger] self@[k] == before.remove(i as int)[k] by {
                            if k < i {
                                assert(self.lines@[k] == before_lines[k]);
                            } else {
                                assert(self.lines@[k] == before_lines[k + 1]);
                            }
                        }
                    }
                }
                return true;
            }
            i = i + 1;
        }
        false
    }

    /// Adds a task line `- task` to a section: after the first run of the
    /// section's lines; for a section that has none, under a new heading
    /// `## name` put before the first heading, or at the end if there is none.
    pub fn add_task(&mut self, task: &str, section: &Section)
        ensures
            final(self)@ == added_lines(
                old(self)@,
                section_id(*section),
                "## "@ + heading_name(section_id(*section)),
                "- "@ + task@,
            ),
    {
        let ghost v = self@;
        let ghost sec = section_id(*section);
        let n = self.lines.len();
        let task_line = Line { section: section.copy(), content: LineContent::Task(join_text("- ", task)) };
        // the first line of the section
        let mut f: usize = 0;
        while f < n
            invariant
                0 <= f <= n,
                n == self.lines@.len(),
                v == self@,
                sec == section_id(*section),
                first_in_section(v, sec, f as int) is None,
            ensures
                f <= n,
                first_in_section(v, sec, f as int) is None,
                f < n ==> !(v[f as int].1 is Ignored) && v[f as int].0 == sec,
            decreases n - f,
        {
            let line = &self.lines[f];
            proof {
                assert(v[f as int] == line_view(*line));
            }
            let ignored = match line.content {
                LineContent::Ignored(_) => true,
                _ => false,
            };
            if !ignored && line.section.same(section) {
                break;
            }
            f = f + 1;
        }
        if f < n {
            proof {
                assert(first_in_section(v, sec, f + 1) == Some(f as int));
                lemma_first_in_section_stable(v, sec, f + 1, n as int);
            }
            // the end of its run
            let mut last: usize = f;
            let mut j: usize = f + 1;
            while j < n
                invariant
                    f <= last < j <= n,
                    n == self.lines@.len(),
                    v == self@,
                    sec == section_id(*section),
                    run_end(v, sec, f + 1, f as int) == run_end(v, sec, j as int, last as int),
                ensures
                    f <= last < n,
                    run_end(v, sec, f + 1, f as int) == last,
                decreases n - j,
            {
                let line = &self.lines[j];
                proof {
                    assert(v[j as int] == line_view(*line));
                }
                let ignored = match line.content {
                    LineContent::Ignored(_) => true,
                    _ => false,
                };
                if !ignored {
                    if line.section.same(section) {
                        last = j;
                    } else {
                        break;
                    }
                }
                j = j + 1;
            }
            self.insert_line(last + 1, task_line);
            return;
        }
        let heading_line = Line {
            section: section.copy(),
            content: LineContent::Section(join_text("## ", section.name().as_str())),
        };
        // the first heading
        let mut h: usize = 0;
        while h < n
            invariant
                0 <= h <= n,
                n == self.lines@.len(),
                v == self@,
                first_heading(v, h as int) is None,
            ensures
                h <= n,
                first_heading(v, h as int) is None,
                h < n ==> v[h as int].1 is Heading,
            decreases n - h,
        {
            let line = &self.lines[h];
            proof {
                assert(v[h as int] == line_view(*line));
            }
            if let LineContent::Section(_) = line.content {
                break;
            }
            h = h + 1;
        }
        if h < n {
            proof {
                assert(first_heading(v, h + 1) == Some(h as int));
                lemma_first_heading_stable(v, h + 1, n as int);
            }
            self.insert_line(h, heading_line);
            self.insert_line(h + 1, task_line);
        } else {
            self.insert_line(n, heading_line);
            let end = self.lines.len();
            self.insert_line(end, task_line);
        }
    }

    fn insert_line(&mut self, i: usize, line: Line)
        requires
            i <= old(self)@.len(),
        ensures
            final(self)@ == old(self)@.insert(i as int, line_view(line)),
    {
        let ghost before = self.lines@;
        self.lines.insert(i, line);
        assert(self@ =~= old(self)@.insert(i as int, line_view(line))) by {
            assert forall|k: int| 0 <= k < self@.len() implies #[trigger] self@[k] == old(self)@.insert(i as int, line_view(line))[k] by {
                if k < i {
                    assert(self.lines@[k] == before[k]);
                } else if k > i {
                    assert(self.lines@[k] == before[k - 1]);
                }
            }
        }
    }

    /// Every section that has tasks, in the order of its first task, with
    /// what its task lines say, in order.
    pub fn sections(&self) -> (r: IndexMap<Section, Vec<String>>)
        ensures
            section_entries(r).len() == task_sections(self@, self@.len() as int).len(),
            forall|g: int| 0 <= g < section_entries(r).len() ==> #[trigger] section_entries(r)[g] == (
                task_sections(self@, self@.len() as int)[g],
                section_tasks(self@, task_sections(self@, self@.len() as int)[g], self@.len() as int),
            ),
    {
        let (keys, lists) = self.grouped();
        collect_sections(keys, lists)
    }

    /// The sections that have tasks and their task lists, side by side.
    fn grouped(&self) -> (r: (Vec<Section>, Vec<Vec<String>>))
        ensures
            forall|a: int, b: int| 0 <= a < b < r.0@.len() ==> section_id(#[trigger] r.0@[a]) != section_id(#[trigger] r.0@[b]),
            r.0@.len() == r.1@.len(),
            r.0@.len() == task_sections(self@, self@.len() as int).len(),
            forall|g: int| 0 <= g < r.0@.len() ==> section_id(#[trigger] r.0@[g]) == task_sections(self@, self@.len() as int)[g],
            forall|g: int| 0 <= g < r.1@.len() ==> views(#[trigger] r.1@[g]@) == section_tasks(
                self@,
                task_sections(self@, self@.len() as int)[g],
                self@.len() as int,
            ),
    {
        let ghost v = self@;
        let mut keys: Vec<Section> = Vec::new();
        let mut lists: Vec<Vec<String>> = Vec::new();
        let mut i: usize = 0;
        while i < self.lines.len()
            invariant
                0 <= i <= self.lines@.len(),
                v == self@,
                v.len() == self.lines@.len(),
                keys@.len() == lists@.len(),
                keys@.len() == task_sections(v, i as int).len(),
                forall|g: int| 0 <= g < keys@.len() ==> section_id(#[trigger] keys@[g]) == task_sections(v, i as int)[g],
                forall|g: int| 0 <= g < lists@.len() ==> views(#[trigger] lists@[g]@) == section_tasks(
                    v,
                    task_sections(v, i as int)[g],
                    i as int,
                ),
                forall|a: int, b: int|
                    0 <= a < b < task_sections(v, i as int).len() ==> task_sections(v, i as int)[a]
                        != task_sections(v, i as int)[b],
            decreases self.lines@.len() - i,
        {
            let line = &self.lines[i];
            proof {
                assert(v[i as int] == line_view(*line));
            }
            let ghost ts = task_sections(v, i as int);
            let ghost k = section_id(line.section);
            if let LineContent::Task(_) = line.content {
                let t = line.content.stripped();
                let mut g: usize = 0;
                while g < keys.len()
                    invariant
                        0 <= g <= keys@.len(),
                        k == section_id(line.section),
                        forall|x: int| 0 <= x < g ==> section_id(#[trigger] keys@[x]) != k,
                    ensures
                        g <= keys@.len(),
                        forall|x: int| 0 <= x < g ==> section_id(#[trigger] keys@[x]) != k,
                        g < keys@.len() ==> section_id(keys@[g as int]) == k,
                    decreases keys@.len() - g,
                {
                    if keys[g].same(&line.section) {
                        break;
                    }
                    g = g + 1;
                }
                if g < keys.len() {
                    proof {
                        assert(ts[g as int] == k);
                        assert(ts.contains(k));
                        assert(task_sections(v, i + 1) == ts);
                    }
                    let ghost old_lists = lists@;
                    let mut l = lists.remove(g);
                    let ghost old_l = l@;
                    l.push(t);
                    lists.insert(g, l);
                    proof {
                        assert forall|x: int| 0 <= x < lists@.len() implies views(#[trigger] lists@[x]@) == section_tasks(
                            v,
                            task_sections(v, i + 1)[x],
                            i + 1,
                        ) by {
                            if x == g {
                                assert(lists@[x]@ == l@);
                                assert(old_l == old_lists[x]@);
                                assert(views(l@) =~= views(old_l).push(t@));
                            } else {
                                assert(lists@[x] == old_lists[x]);
                                assert(ts[x] != ts[g as int]);
                            }
                        }
                    }
                } else {
                    proof {
                        assert(!ts.contains(k)) by {
                            if ts.contains(k) {
                                let j = choose|j: int| 0 <= j < ts.len() && ts[j] == k;
                                assert(section_id(keys@[j]) == k);
                            }
                        }
                        lemma_absent_section_empty(v, k, i as int);
                        assert(task_sections(v, i + 1) == ts.push(k));
                    }
                    let ghost old_lists = lists@;
                    let mut l: Vec<String> = Vec::new();
                    l.push(t);
                    keys.push(line.section.copy());
                    lists.push(l);
                    proof {
                        assert forall|x: int| 0 <= x < lists@.len() implies views(#[trigger] lists@[x]@) == section_tasks(
                            v,
                            task_sections(v, i + 1)[x],
                            i + 1,
                        ) by {
                            if x == old_lists.len() {
                                assert(views(l@) =~= section_tasks(v, k, i as int).push(t@));
                            } else {
                                assert(lists@[x] == old_lists[x]);
                                assert(ts[x] != k);
                            }
                        }
                    }
                }
            } else {
                proof {
                    assert(task_sections(v, i + 1) == ts);
                }
            }
            i = i + 1;
        }
        proof {
            let ts = task_sections(v, i as int);
            assert forall|a: int, b: int| 0 <= a < b < keys@.len() implies section_id(#[trigger] keys@[a]) != section_id(#[trigger] keys@[b]) by {
                assert(section_id(keys@[a]) == ts[a] && section_id(keys@[b]) == ts[b]);
            }
        }
        (keys, lists)
    }

    /// The text of the file: the lines joined by line feeds.
    pub fn render(&self) -> (r: String)
        ensures
            r@ == joined_by(texts(self@), "\n"@),
    {
        let mut texts_v: Vec<String> = Vec::new();
        let mut i: usize = 0;
        while i < self.lines.len()
            invariant
                0 <= i <= self.lines@.len(),
                views(texts_v@) == texts(self@).subrange(0, i as int),
            decreases self.lines@.len() - i,
        {
            let ghost before = texts_v@;
            let t = self.lines[i].content.text().clone();
            assert(t@ == texts(self@)[i as int]) by {
                assert(self@[i as int] == line_view(self.lines@[i as int]));
            }
            texts_v.push(t);
            assert(texts_v@ == before.push(t));
            i = i + 1;
            assert(views(texts_v@) =~= texts(self@).subrange(0, i as int)) by {
                assert(views(before).len() == before.len());
                assert(texts(self@).subrange(0, i - 1).len() == i - 1);
                assert(views(before) == texts(self@).subrange(0, i - 1));
                assert(before.len() == i - 1);
                assert forall|k: int| 0 <= k < texts_v@.len() implies #[trigger] texts_v@[k]@ == texts(self@)[k] by {
                    if k < before.len() {
                        assert(views(before)[k] == texts(self@).subrange(0, i - 1)[k]);
                        assert(texts_v@[k] == before[k]);
                    } else {
                        assert(texts_v@[k] == t);
                    }
                }
            }
        }
        assert(texts(self@).subrange(0, i as int) =~= texts(self@));
        join_all(&texts_v, "\n")
    }
}

} // verus!
