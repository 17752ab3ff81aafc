//! The store of parsed documents.

use crate::model::lemma_deep_view_push;
use crate::model::CDADocument;
use crate::model::DocumentView;
use crate::model::Statistics;
use crate::patterns::medication_patterns;
use crate::patterns::usable;
use crate::patterns::MedicationPatterns;
use crate::stats::calculate_statistics;
use crate::stats::statistics_of;
use crate::walker::parse_cda_document;
use crate::walker::parsed;
use crate::xml::document_reads;
use vstd::prelude::*;
use vstd::string::StringExecFns;

verus! {

/// The message for a file that could not be read.
pub open spec fn parse_error(file_name: Seq<char>, description: Seq<char>) -> Seq<char> {
    "Error parsing "@ + file_name + ": "@ + description
}

/// The documents of those files, in order, that can be read. A file is a
/// name and its XML text.
pub open spec fn batch_parsed(
    files: Seq<(Seq<char>, Seq<char>)>,
    patterns: Seq<Seq<char>>,
) -> Seq<DocumentView>
    decreases files.len(),
{
    if files.len() == 0 {
        Seq::empty()
    } else {
        let before = batch_parsed(files.drop_last(), patterns);
        match parsed(files.last().0, document_reads(files.last().1), patterns) {
            Ok(doc) => before.push(doc),
            Err(_) => before,
        }
    }
}

/// Parses clinical documents and keeps them, in the order in which they were
/// parsed.
pub struct CDAParser {
    documents: Vec<CDADocument>,
    patterns: MedicationPatterns,
}

impl CDAParser {
    /// The documents kept.
    pub closed spec fn documents(&self) -> Seq<DocumentView> {
        self.documents.deep_view()
    }

    /// The medication patterns in use.
    pub closed spec fn patterns(&self) -> Seq<Seq<char>> {
        self.patterns@
    }

    /// A parser that keeps no document yet.
    pub fn new() -> (parser: CDAParser)
        ensures
            parser.documents() == Seq::<DocumentView>::empty(),
            parser.patterns() == usable(medication_patterns()),
    {
        let parser = CDAParser { documents: Vec::new(), patterns: MedicationPatterns::new() };
        assert(parser.documents.deep_view() =~= Seq::empty());
        parser
    }

    /// Parses one file and keeps its document. A file that cannot be read is
    /// an error, and nothing is kept of it.
    pub fn parse_file(&mut self, file_name: &str, xml: &str) -> (r: Result<String, String>)
        ensures
            final(self).patterns() == old(self).patterns(),
            match parsed(file_name@, document_reads(xml@), old(self).patterns()) {
                Ok(doc) => {
                    &&& r matches Ok(message)
                    &&& message@ == "Success"@
                    &&& final(self).documents() == old(self).documents().push(doc)
                },
                Err(description) => {
                    &&& r matches Err(message)
                    &&& message@ == parse_error(file_name@, description)
                    &&& final(self).documents() == old(self).documents()
                },
            },
    {
        match parse_cda_document(file_name, xml, &self.patterns) {
            Ok(document) => {
                let ghost before = self.documents;
                self.documents.push(document);
                proof {
                    lemma_deep_view_push(before, self.documents, document);
                }
                Ok("Success".to_owned())
            },
            Err(description) => {
                let mut message = "Error parsing ".to_owned();
                message.append(file_name);
                message.append(": ");
                message.append(description.as_str());
                Err(message)
            },
        }
    }

    /// The figures over the documents kept.
    pub fn get_statistics(&self) -> (stats: Statistics)
        ensures
            stats@ == statistics_of(self.documents()),
    {
        calculate_statistics(&self.documents)
    }

    /// Forgets every document.
    pub fn clear(&mut self)
        ensures
            final(self).documents() == Seq::<DocumentView>::empty(),
            final(self).patterns() == old(self).patterns(),
    {
        self.documents.clear();
        assert(self.documents.deep_view() =~= Seq::empty());
    }

    /// The documents kept, in the order in which they were parsed.
    pub fn get_documents(&self) -> (documents: &Vec<CDADocument>)
        ensures
            documents.deep_view() == self.documents(),
    {
        &self.documents
    }

    /// Keeps `documents` in place of the documents kept before, and returns
    /// the figures over them.
    pub fn replace_documents(&mut self, documents: Vec<CDADocument>) -> (stats: Statistics)
        ensures
            final(self).patterns() == old(self).patterns(),
            final(self).documents() == documents.deep_view(),
            stats@ == statistics_of(final(self).documents()),
    {
        self.documents = documents;
        calculate_statistics(&self.documents)
    }

    /// Parses every file, each a name and its XML text, and keeps the
    /// documents of those that can be read in place of the documents kept
    /// before. A file that cannot be read is left out. Returns the figures
    /// over the documents now kept.
    pub fn parse_files_batch(&mut self, files: &Vec<(String, String)>) -> (stats: Statistics)
        ensures
            final(self).patterns() == old(self).patterns(),
            final(self).documents() == batch_parsed(files.deep_view(), old(self).patterns()),
            stats@ == statistics_of(final(self).documents()),
    {
        let ghost all = files.deep_view();
        let mut parsed_documents: Vec<CDADocument> = Vec::new();
        let n = files.len();
        let mut i: usize = 0;
        assert(all.take(0) =~= Seq::empty());
        assert(parsed_documents.deep_view() =~= Seq::empty());
        while i < n
            invariant
                i <= n,
                n == files@.len(),
                all == files.deep_view(),
                self.patterns == old(self).patterns,
                parsed_documents.deep_view() == batch_parsed(
                    all.take(i as int),
                    self.patterns@,
                ),
            decreases n - i,
        {
            proof {
                assert(all.take(i + 1).drop_last() =~= all.take(i as int));
                assert(all.take(i + 1).last() == files@[i as int].deep_view());
            }
            match parse_cda_document(files[i].0.as_str(), files[i].1.as_str(), &self.patterns) {
                Ok(document) => {
                    let ghost before = parsed_documents;
                    parsed_documents.push(document);
                    proof {
                        lemma_deep_view_push(before, parsed_documents, document);
                    }
                },
                Err(_) => {},
            }
            i += 1;
        }
        assert(all.take(n as int) =~= all);
        self.replace_documents(parsed_documents)
    }
}

} // verus!
