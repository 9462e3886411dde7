//! The table of contents of a generated site: titles collected page by
//! page, and grouped by language at the end.

use vstd::prelude::*;
use crate::msg::MsgEntry;
use crate::text::views;

verus! {

/// `s` without the white space at its two ends, as `str::trim` of the
/// standard library computes it.
pub uninterp spec fn trimmed(s: Seq<char>) -> Seq<char>;

/// `str::trim` of the standard library.
#[verifier::external_body]
fn trim(s: &str) -> (t: &str)
    ensures
        t@ == trimmed(s@),
{
    s.trim()
}

/// The titles of one page, language by language.
pub open spec fn rows_view(rows: Seq<Vec<String>>) -> Seq<Seq<Seq<char>>> {
    Seq::new(rows.len(), |i: int| views(rows[i]@))
}

/// One page of the site: its path and, for each language, its titles.
#[derive(Debug, Clone, PartialEq, Eq)]
pub struct TocEntry {
    pub title: Vec<Vec<String>>,
    pub path: String,
}

/// One line of the table of contents of one language.
#[derive(Debug, Clone, PartialEq, Eq)]
pub struct OutputTocEntry {
    pub title: Vec<String>,
    pub path: String,
}

/// `OutputTocEntry` as a mathematical value.
pub struct OutputTocEntryView {
    pub title: Seq<Seq<char>>,
    pub path: Seq<char>,
}

impl View for OutputTocEntry {
    type V = OutputTocEntryView;

    open spec fn view(&self) -> OutputTocEntryView {
        OutputTocEntryView { title: views(self.title@), path: self.path@ }
    }
}

/// The views of a sequence of lines.
pub open spec fn lines_view(lines: Seq<OutputTocEntry>) -> Seq<OutputTocEntryView> {
    Seq::new(lines.len(), |i: int| lines[i]@)
}

/// The number of languages that some page has titles for.
pub open spec fn language_count(entries: Seq<TocEntry>) -> nat
    decreases entries.len(),
{
    if entries.len() == 0 {
        0
    } else {
        let rest = language_count(entries.drop_last());
        if entries.last().title@.len() > rest {
            entries.last().title@.len()
        } else {
            rest
        }
    }
}

/// The table of contents of language `language`: one line for every page
/// that has a title in it, in the order of the pages.
pub open spec fn language_table(entries: Seq<TocEntry>, language: int) -> Seq<OutputTocEntryView>
    decreases entries.len(),
{
    if entries.len() == 0 {
        Seq::empty()
    } else {
        let rest = language_table(entries.drop_last(), language);
        let page = entries.last();
        if 0 <= language < page.title@.len() && page.title@[language]@.len() > 0 {
            rest.push(
                OutputTocEntryView { title: views(page.title@[language]@), path: page.path@ },
            )
        } else {
            rest
        }
    }
}

/// The pages collected so far.
pub struct Toc {
    entries: Vec<TocEntry>,
}

/// The titles of one page while the page is being written.
pub struct TocSink {
    path: String,
    title: Vec<Vec<String>>,
}

/// A copy of `strings`.
fn clone_strings(strings: &Vec<String>) -> (out: Vec<String>)
    ensures
        views(out@) == views(strings@),
{
    let mut out: Vec<String> = Vec::new();
    let mut i: usize = 0;
    while i < strings.len()
        invariant
            i <= strings.len(),
            out@.len() == i,
            forall|k: int| 0 <= k < i ==> out@[k]@ == strings@[k]@,
        decreases strings.len() - i,
    {
        out.push(strings[i].clone());
        i += 1;
    }
    assert(views(out@) =~= views(strings@));
    out
}

impl Toc {
    /// The pages collected so far, in order.
    pub closed spec fn entries(&self) -> Seq<TocEntry> {
        self.entries@
    }

    /// An empty table of contents.
    pub fn new() -> (toc: Toc)
        ensures
            toc.entries().len() == 0,
    {
        Toc { entries: Vec::new() }
    }

    /// Adds a page behind those collected so far.
    pub fn push(&mut self, entry: TocEntry)
        ensures
            final(self).entries() == old(self).entries().push(entry),
    {
        self.entries.push(entry);
    }

    /// The number of languages that some page has titles for.
    pub fn languages(&self) -> (n: usize)
        ensures
            n == language_count(self.entries()),
    {
        let mut n: usize = 0;
        let mut i: usize = 0;
        while i < self.entries.len()
            invariant
                i <= self.entries.len(),
                n == language_count(self.entries@.take(i as int)),
            decreases self.entries.len() - i,
        {
            assert(self.entries@.take(i + 1).drop_last() =~= self.entries@.take(i as int));
            if self.entries[i].title.len() > n {
                n = self.entries[i].title.len();
            }
            i += 1;
        }
        assert(self.entries@.take(i as int) =~= self.entries@);
        n
    }

    /// The table of contents of language `language`.
    pub fn for_language(&self, language: usize) -> (lines: Vec<OutputTocEntry>)
        ensures
            lines_view(lines@) == language_table(self.entries(), language as int),
    {
        let mut lines: Vec<OutputTocEntry> = Vec::new();
        let mut i: usize = 0;
        assert(lines_view(lines@) =~= language_table(self.entries@.take(0), language as int));
        while i < self.entries.len()
            invariant
                i <= self.entries.len(),
                lines_view(lines@) == language_table(self.entries@.take(i as int), language as int),
            decreases self.entries.len() - i,
        {
            let ghost before = lines_view(lines@);
            assert(self.entries@.take(i + 1).drop_last() =~= self.entries@.take(i as int));
            let page = &self.entries[i];
            if language < page.title.len() && page.title[language].len() > 0 {
                let line = OutputTocEntry {
                    title: clone_strings(&page.title[language]),
                    path: page.path.clone(),
                };
                lines.push(line);
                assert(lines_view(lines@) =~= before.push(line@));
            }
            i += 1;
        }
        assert(self.entries@.take(i as int) =~= self.entries@);
        lines
    }

    /// Groups the pages by language: table `i` of the result is the table
    /// of contents of language `i`, for every language that some page has
    /// titles for.
    pub fn finalize(self) -> (tables: Vec<Vec<OutputTocEntry>>)
        ensures
            tables@.len() == language_count(self.entries()),
            forall|i: int|
                0 <= i < tables@.len() ==> lines_view((#[trigger] tables@[i])@) == language_table(
                    self.entries(),
                    i,
                ),
    {
        let languages = self.languages();
        let mut tables: Vec<Vec<OutputTocEntry>> = Vec::new();
        let mut i: usize = 0;
        while i < languages
            invariant
                i <= languages,
                tables@.len() == i,
                forall|k: int|
                    0 <= k < i ==> lines_view((#[trigger] tables@[k])@) == language_table(
                        self.entries(),
                        k,
                    ),
            decreases languages - i,
        {
            tables.push(self.for_language(i));
            i += 1;
        }
        tables
    }
}

/// The titles of row `i` after `text` was added for language `language`:
/// the old titles of the row, and behind them `text` where the row is that
/// of the language and `text` is not empty.
pub open spec fn pushed_row(rows: Seq<Seq<Seq<char>>>, language: int, text: Seq<char>, i: int) -> Seq<
    Seq<char>,
> {
    let old_row = if 0 <= i < rows.len() {
        rows[i]
    } else {
        Seq::empty()
    };
    if i == language && text.len() > 0 {
        old_row.push(text)
    } else {
        old_row
    }
}

/// The titles after the texts `content[from..]` were added, each trimmed
/// and for the language of its index.
pub open spec fn added(rows: Seq<Seq<Seq<char>>>, content: Seq<String>, from: int) -> Seq<
    Seq<Seq<char>>,
>
    decreases content.len() - from,
{
    if from < 0 || from >= content.len() {
        rows
    } else {
        let len = if rows.len() <= from {
            (from + 1) as nat
        } else {
            rows.len()
        };
        added(
            Seq::new(len, |i: int| pushed_row(rows, from, trimmed(content[from]@), i)),
            content,
            from + 1,
        )
    }
}

impl TocSink {
    /// The path of the page.
    pub closed spec fn spec_path(&self) -> Seq<char> {
        self.path@
    }

    /// The titles collected so far, language by language.
    pub closed spec fn titles(&self) -> Seq<Seq<Seq<char>>> {
        rows_view(self.title@)
    }

    /// Starts collecting the titles of the page at `path`.
    pub fn new(path: String) -> (sink: TocSink)
        ensures
            sink.spec_path() == path@,
            sink.titles().len() == 0,
    {
        TocSink { path, title: Vec::new() }
    }

    /// Adds `text` to the titles of language `language` unless it is
    /// empty. The page has titles for that language and all before it from
    /// then on, if only empty lists of them.
    pub fn push_title(&mut self, language: usize, text: &str)
        ensures
            final(self).spec_path() == old(self).spec_path(),
            final(self).titles().len() == if old(self).titles().len() <= language {
                language + 1
            } else {
                old(self).titles().len() as int
            },
            forall|i: int|
                0 <= i < final(self).titles().len() ==> #[trigger] final(self).titles()[i]
                    == pushed_row(old(self).titles(), language as int, text@, i),
    {
        let ghost rows = self.titles();
        while self.title.len() <= language
            invariant
                self.path == old(self).path,
                rows == old(self).titles(),
                rows.len() <= self.title@.len(),
                self.title@.len() > rows.len() ==> self.title@.len() <= language + 1,
                forall|i: int|
                    0 <= i < self.title@.len() ==> #[trigger] views(self.title@[i]@) == if i
                        < rows.len() {
                        rows[i]
                    } else {
                        Seq::empty()
                    },
            decreases language + 1 - self.title.len(),
        {
            let row: Vec<String> = Vec::new();
            assert(views(row@) =~= Seq::<Seq<char>>::empty());
            self.title.push(row);
        }
        if text.unicode_len() != 0 {
            let ghost before = self.title@;
            let mut row: Vec<String> = Vec::new();
            std::mem::swap(&mut row, &mut self.title[language]);
            let ghost old_row = views(row@);
            row.push(String::from_str(text));
            assert(views(row@) =~= old_row.push(text@));
            self.title.set(language, row);
            assert(forall|k: int|
                0 <= k < self.title@.len() && k != language ==> self.title@[k] == before[k]);
        }
        assert(self.titles() =~= Seq::new(
            self.title@.len(),
            |i: int| pushed_row(rows, language as int, text@, i),
        ));
    }

    /// Adds a title that is given in several languages: text `i` of the
    /// message, trimmed, is added to the titles of language `i` unless it
    /// is empty.
    pub fn add(&mut self, title: &MsgEntry)
        ensures
            final(self).spec_path() == old(self).spec_path(),
            final(self).titles() == added(old(self).titles(), title.content@, 0),
    {
        let mut i: usize = 0;
        while i < title.content.len()
            invariant
                i <= title.content.len(),
                self.spec_path() == old(self).spec_path(),
                added(old(self).titles(), title.content@, 0) == added(
                    self.titles(),
                    title.content@,
                    i as int,
                ),
            decreases title.content.len() - i,
        {
            let ghost rows = self.titles();
            let text = trim(title.content[i].as_str());
            self.push_title(i, text);
            proof {
                let len = if rows.len() <= i {
                    (i + 1) as nat
                } else {
                    rows.len()
                };
                assert(self.titles() =~= Seq::new(
                    len,
                    |k: int| pushed_row(rows, i as int, trimmed(title.content@[i as int]@), k),
                ));
            }
            i += 1;
        }
    }

    /// The path of the page.
    pub fn path(&self) -> (p: &str)
        ensures
            p@ == self.spec_path(),
    {
        self.path.as_str()
    }

    /// Ends the page: its titles become the next entry of `toc`.
    pub fn finish(self, toc: &mut Toc)
        ensures
            final(toc).entries().len() == old(toc).entries().len() + 1,
            final(toc).entries().drop_last() == old(toc).entries(),
            final(toc).entries().last().path@ == self.spec_path(),
            rows_view(final(toc).entries().last().title@) == self.titles(),
    {
        let ghost before = toc.entries();
        toc.push(TocEntry { title: self.title, path: self.path });
        assert(toc.entries().drop_last() =~= before);
    }
}

} // verus!
