//! The walk through the events of one document.
//!
//! The walker keeps the names of the open elements, in lower case, and the
//! character data met since the last element that had any. An element's
//! attributes are looked at when it opens, the character data when an element
//! closes.

use crate::invariants::lemma_parsed_is_well_formed;
use crate::invariants::well_formed;
use crate::model::CDADocument;
use crate::model::DocumentView;
use crate::patterns::MedicationPatterns;
use crate::postprocess::post_process_document;
use crate::postprocess::post_processed;
use crate::rules::attributes_applied;
use crate::rules::extract_attributes;
use crate::rules::process_text_content;
use crate::rules::text_applied;
use crate::text::is_blank;
use crate::text::is_blank_text;
use crate::text::lowercase;
use crate::text::to_lower;
use crate::text::trim;
use crate::text::trimmed;
use crate::xml::document_reads;
use crate::xml::is_last_read;
use crate::xml::open_reader;
use crate::xml::pending_reads;
use crate::xml::read_next;
use crate::xml::reads_complete;
use crate::xml::Read;
use crate::xml::ReadView;
use crate::xml::XmlEvent;
use crate::xml::XmlEventView;
use vstd::prelude::*;
use vstd::string::StringExecFns;

verus! {

/// Where the walk through a document stands.
pub struct ParseState {
    /// What has been extracted so far.
    pub document: CDADocument,
    /// The names of the open elements, in lower case, outermost first.
    pub path: Vec<String>,
    /// The character data not yet handed to the rules.
    pub text: String,
}

/// The view of a [`ParseState`].
pub struct ParseStateView {
    pub document: DocumentView,
    pub path: Seq<Seq<char>>,
    pub text: Seq<char>,
}

impl View for ParseState {
    type V = ParseStateView;

    open spec fn view(&self) -> ParseStateView {
        ParseStateView {
            document: self.document@,
            path: self.path.deep_view(),
            text: self.text@,
        }
    }
}

/// The state before the first event of a document.
pub open spec fn initial_state(file_name: Seq<char>) -> ParseStateView {
    ParseStateView {
        document: CDADocument::blank(file_name),
        path: Seq::empty(),
        text: Seq::empty(),
    }
}

/// The path without its innermost element.
pub open spec fn path_closed(path: Seq<Seq<char>>) -> Seq<Seq<char>> {
    if path.len() > 0 {
        path.drop_last()
    } else {
        path
    }
}

/// The state after one event.
///
/// An element that opens joins the path, and its attributes are applied. An
/// element that closes takes the character data gathered so far, unless that
/// is blank, and leaves the path. Character data is gathered.
pub open spec fn stepped(
    state: ParseStateView,
    event: XmlEventView,
    patterns: Seq<Seq<char>>,
) -> ParseStateView {
    match event {
        XmlEventView::Start { name, attributes } => {
            let tag = to_lower(name);
            let path = state.path.push(tag);
            ParseStateView {
                document: attributes_applied(state.document, tag, attributes, path),
                path,
                text: state.text,
            }
        },
        XmlEventView::End { name } => {
            if is_blank(state.text) {
                ParseStateView { path: path_closed(state.path), ..state }
            } else {
                ParseStateView {
                    document: text_applied(
                        state.document,
                        to_lower(name),
                        trimmed(state.text),
                        state.path,
                        patterns,
                    ),
                    path: path_closed(state.path),
                    text: Seq::empty(),
                }
            }
        },
        XmlEventView::Text { content } => ParseStateView { text: state.text + content, ..state },
        XmlEventView::Other => state,
    }
}

/// The state after the events of `reads` up to the end of the text, or the
/// description of the failure that `reads` runs into.
pub open spec fn walked(
    state: ParseStateView,
    reads: Seq<ReadView>,
    patterns: Seq<Seq<char>>,
) -> Result<ParseStateView, Seq<char>>
    decreases reads.len(),
{
    if reads.len() == 0 {
        Ok(state)
    } else {
        match reads[0] {
            ReadView::Event(event) => walked(
                stepped(state, event, patterns),
                reads.drop_first(),
                patterns,
            ),
            ReadView::Eof => Ok(state),
            ReadView::Failure(description) => Err(description),
        }
    }
}

/// The document that the reads of a text give, finished, or the error
/// message for the failure that they run into.
pub open spec fn parsed(
    file_name: Seq<char>,
    reads: Seq<ReadView>,
    patterns: Seq<Seq<char>>,
) -> Result<DocumentView, Seq<char>> {
    match walked(initial_state(file_name), reads, patterns) {
        Ok(state) => Ok(post_processed(state.document)),
        Err(description) => Err("Error reading XML: "@ + description),
    }
}

/// The reads of a text that holds `events` and nothing else.
pub open spec fn reads_of(events: Seq<XmlEventView>) -> Seq<ReadView> {
    Seq::new(
        events.len() + 1,
        |i: int|
            if i < events.len() {
                ReadView::Event(events[i])
            } else {
                ReadView::Eof
            },
    )
}

/// The view of the outcome of a parse.
pub open spec fn outcome_view(r: Result<CDADocument, String>) -> Result<DocumentView, Seq<char>> {
    match r {
        Ok(doc) => Ok(doc@),
        Err(message) => Err(message@),
    }
}

impl ParseState {
    /// The state before the first event of the document `file_name`.
    pub fn new(file_name: &str) -> (state: ParseState)
        ensures
            state@ == initial_state(file_name@),
    {
        let state = ParseState {
            document: CDADocument::new(file_name),
            path: Vec::new(),
            text: String::new(),
        };
        assert(state.path.deep_view() =~= Seq::empty());
        state
    }
}

/// Takes one event into the state.
pub fn process_event(state: &mut ParseState, event: &XmlEvent, patterns: &MedicationPatterns)
    ensures
        final(state)@ == stepped(old(state)@, event@, patterns@),
{
    match event {
        XmlEvent::Start { name, attributes } => {
            let tag = lowercase(name.as_str());
            let ghost before = state.path;
            let pushed = tag.clone();
            state.path.push(pushed);
            assert(state.path.deep_view() =~= before.deep_view().push(tag@));
            extract_attributes(&mut state.document, tag.as_str(), attributes, &state.path);
        },
        XmlEvent::End { name } => {
            let tag = lowercase(name.as_str());
            if !is_blank_text(state.text.as_str()) {
                process_text_content(
                    &mut state.document,
                    tag.as_str(),
                    trim(state.text.as_str()),
                    &state.path,
                    patterns,
                );
                state.text = String::new();
            }
            let ghost before = state.path;
            if state.path.len() > 0 {
                state.path.pop();
                assert(state.path.deep_view() =~= before.deep_view().drop_last());
            }
        },
        XmlEvent::Text { content } => {
            state.text.append(content.as_str());
        },
        XmlEvent::Other => {},
    }
}

/// The finished document of a text that holds `events` and nothing else.
pub fn parse_events(file_name: &str, events: &Vec<XmlEvent>, patterns: &MedicationPatterns) -> (doc:
    CDADocument)
    ensures
        parsed(file_name@, reads_of(events.deep_view()), patterns@) == Ok::<
            DocumentView,
            Seq<char>,
        >(doc@),
        well_formed(doc@),
{
    proof {
        lemma_parsed_is_well_formed(file_name@, reads_of(events.deep_view()), patterns@);
    }
    let mut state = ParseState::new(file_name);
    let ghost all = reads_of(events.deep_view());
    let n = events.len();
    let mut i: usize = 0;
    assert(all.skip(0) =~= all);
    while i < n
        invariant
            i <= n,
            n == events@.len(),
            all == reads_of(events.deep_view()),
            walked(initial_state(file_name@), all, patterns@) == walked(
                state@,
                all.skip(i as int),
                patterns@,
            ),
        decreases n - i,
    {
        proof {
            let rest = all.skip(i as int);
            assert(rest[0] == ReadView::Event(events@[i as int]@));
            assert(rest.drop_first() =~= all.skip(i + 1));
        }
        process_event(&mut state, &events[i], patterns);
        i += 1;
    }
    proof {
        let rest = all.skip(n as int);
        assert(rest[0] == ReadView::Eof);
    }
    let mut document = state.document;
    post_process_document(&mut document);
    document
}

/// The finished document of the XML text `xml`, or the message of the error
/// that reading it ran into.
pub fn parse_cda_document(file_name: &str, xml: &str, patterns: &MedicationPatterns) -> (r: Result<
    CDADocument,
    String,
>)
    ensures
        outcome_view(r) == parsed(file_name@, document_reads(xml@), patterns@),
        r matches Ok(doc) ==> well_formed(doc@),
{
    proof {
        lemma_parsed_is_well_formed(file_name@, document_reads(xml@), patterns@);
    }
    let mut reader = open_reader(xml);
    let mut state = ParseState::new(file_name);
    loop
        invariant_except_break
            reads_complete(pending_reads(reader)),
            walked(initial_state(file_name@), document_reads(xml@), patterns@) == walked(
                state@,
                pending_reads(reader),
                patterns@,
            ),
        ensures
            walked(initial_state(file_name@), document_reads(xml@), patterns@) == Ok::<
                ParseStateView,
                Seq<char>,
            >(state@),
        decreases pending_reads(reader).len(),
    {
        let ghost before = pending_reads(reader);
        match read_next(&mut reader) {
            Read::Event(event) => {
                proof {
                    let rest = before.drop_first();
                    assert(before.len() > 1);
                    assert(rest.last() == before.last());
                    assert forall|k: int| 0 <= k < rest.len() - 1 implies !is_last_read(
                        #[trigger] rest[k],
                    ) by {
                        assert(rest[k] == before[k + 1]);
                    }
                }
                process_event(&mut state, &event, patterns);
            },
            Read::Eof => {
                break ;
            },
            Read::Failure(description) => {
                let mut message = "Error reading XML: ".to_owned();
                message.append(description.as_str());
                return Err(message);
            },
        }
    }
    let mut document = state.document;
    post_process_document(&mut document);
    Ok(document)
}

} // verus!
