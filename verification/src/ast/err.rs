//! Compiler errors: a message, labelled source spans and help notes.
use vstd::prelude::*;

use annotate_snippets::display_list::{DisplayList, FormatOptions};
use annotate_snippets::snippet::{Annotation, AnnotationType, Slice, Snippet, SourceAnnotation};

verus! {

pub type Span = (usize, usize);

pub type Result<T> = core::result::Result<T, Error>;

/// An error with a headline, labels attached to spans of the source, and notes.
#[derive(Clone, Debug)]
pub struct Error {
    label: String,
    items: Vec<(Span, String)>,
    footer: Vec<String>,
}

/// The labelled spans of an error as plain values.
pub open spec fn items_view(items: Seq<(Span, String)>) -> Seq<(Span, Seq<char>)> {
    items.map_values(|it: (Span, String)| (it.0, it.1@))
}

/// The notes of an error as plain values.
pub open spec fn notes_view(notes: Seq<String>) -> Seq<Seq<char>> {
    notes.map_values(|n: String| n@)
}

/// The text that annotate-snippets draws for an error with the given headline, labelled
/// spans and help notes over the given source, with or without colour.
pub uninterp spec fn rendered_error(
    label: Seq<char>,
    items: Seq<(Span, Seq<char>)>,
    footer: Seq<Seq<char>>,
    src: Seq<char>,
    color: bool,
) -> Seq<char>;

/// Whether every labelled span lies within the source, `start <= end <= length` counted in
/// characters.
pub open spec fn spans_within(items: Seq<(Span, Seq<char>)>, src: Seq<char>) -> bool {
    forall|i: int| 0 <= i < items.len() ==> (#[trigger] items[i]).0.0 <= items[i].0.1 <= src.len()
}

/// Draws an error with annotate-snippets: one slice holding the whole source from line 1,
/// folded, an error title, an error annotation per labelled span and a help footer per note.
/// `DisplayList::from` panics on a span that ends past the source, and spans that end before
/// they start are not drawn sensibly, so both are left out. What the text is, is not stated:
/// it is named, a function of these arguments alone (the crate's `color` feature is off, so
/// the flag changes nothing here).
#[verifier::external_body]
fn render_snippet(label: &String, items: &Vec<(Span, String)>, footer: &Vec<String>, src: &str, color: bool) -> (r: String)
    requires
        spans_within(items_view(items@), src@),
    ensures
        r@ == rendered_error(label@, items_view(items@), notes_view(footer@), src@, color),
{
    let note = |l: &String, t| Annotation { label: Some(l.clone()), id: None, annotation_type: t };
    let annotations = items.iter().map(|(range, l)| SourceAnnotation { label: l.clone(), annotation_type: AnnotationType::Error, range: *range }).collect();
    let slices = vec![Slice { source: src.to_string(), line_start: 1, origin: None, fold: true, annotations }];
    let opt = FormatOptions { color, ..Default::default() };
    let footer = footer.iter().map(|f| note(f, AnnotationType::Help)).collect();
    format!("{}", DisplayList::from(Snippet { title: Some(note(label, AnnotationType::Error)), slices, footer, opt }))
}

impl Error {
    /// The headline of the error.
    pub closed spec fn message(&self) -> Seq<char> {
        self.label@
    }

    /// The labelled spans, in the order they were added.
    pub closed spec fn labels(&self) -> Seq<(Span, Seq<char>)> {
        items_view(self.items@)
    }

    /// The help notes, in the order they were added.
    pub closed spec fn notes(&self) -> Seq<Seq<char>> {
        notes_view(self.footer@)
    }

    pub fn new(label: &str) -> (r: Self)
        ensures
            r.message() == label@,
            r.labels() == Seq::<(Span, Seq<char>)>::empty(),
            r.notes() == Seq::<Seq<char>>::empty(),
    {
        let r = Error { label: String::from_str(label), items: Vec::new(), footer: Vec::new() };
        assert(items_view(r.items@) =~= Seq::<(Span, Seq<char>)>::empty());
        assert(notes_view(r.footer@) =~= Seq::<Seq<char>>::empty());
        r
    }

    /// Attaches a label to a span of the source.
    pub fn label(self, label: &str, span: Span) -> (r: Self)
        ensures
            r.message() == self.message(),
            r.labels() == self.labels().push((span, label@)),
            r.notes() == self.notes(),
    {
        let mut s = self;
        let ghost old_items = s.items@;
        s.items.push((span, String::from_str(label)));
        assert(items_view(s.items@) =~= items_view(old_items).push((span, label@)));
        s
    }

    /// Adds a help note.
    pub fn help(self, label: &str) -> (r: Self)
        ensures
            r.message() == self.message(),
            r.labels() == self.labels(),
            r.notes() == self.notes().push(label@),
    {
        let mut s = self;
        let ghost old_footer = s.footer@;
        s.footer.push(String::from_str(label));
        assert(notes_view(s.footer@) =~= notes_view(old_footer).push(label@));
        s
    }

    /// Whether every labelled span lies within `src` (rendering needs that).
    pub fn fits_source(&self, src: &str) -> (r: bool)
        ensures
            r == spans_within(self.labels(), src@),
    {
        let n = src.unicode_len();
        let mut i: usize = 0;
        while i < self.items.len()
            invariant
                i <= self.items@.len(),
                n == src@.len(),
                forall|j: int| 0 <= j < i ==> (#[trigger] items_view(self.items@)[j]).0.0 <= items_view(self.items@)[j].0.1 <= src@.len(),
            decreases self.items@.len() - i,
        {
            let (start, end) = self.items[i].0;
            if !(start <= end && end <= n) {
                proof {
                    assert(items_view(self.items@)[i as int].0 == (start, end));
                }
                return false;
            }
            i = i + 1;
        }
        true
    }

    /// The error drawn under the lines of `src` that its labels point at.
    pub fn render(&self, src: &str, color: bool) -> (r: String)
        requires
            spans_within(self.labels(), src@),
        ensures
            r@ == rendered_error(self.message(), self.labels(), self.notes(), src@, color),
    {
        render_snippet(&self.label, &self.items, &self.footer, src, color)
    }
}

} // verus!
