//! Diagnoses and medications found by looking for words in text.

use crate::model::lemma_deep_view_push;
use crate::model::CDADocument;
use crate::model::Diagnosis;
use crate::model::DiagnosisView;
use crate::model::DocumentView;
use crate::model::Medication;
use crate::model::MedicationView;
use crate::order::contains_name;
use crate::order::has_name;
use crate::patterns::pattern_matches;
use crate::patterns::MedicationPatterns;
use crate::tables::inference_entries;
use crate::tables::inference_table;
use crate::tables::keyword_entries;
use crate::tables::keyword_table;
use crate::tables::title_entries;
use crate::tables::title_table;
use crate::tables::Entry;
use crate::tables::EntryView;
use crate::text::chars_contain;
use crate::text::chars_of;
use crate::text::is_substring;
use crate::text::lowercase;
use crate::text::to_lower;
use vstd::prelude::*;
use vstd::string::StrSliceExecFns;

verus! {

/// `list`, and behind it a diagnosis `name` from `source` unless the list has
/// one of that name already, letter case aside.
pub open spec fn with_diagnosis(
    list: Seq<DiagnosisView>,
    name: Seq<char>,
    source: Seq<char>,
) -> Seq<DiagnosisView> {
    if has_name::<Diagnosis>(list, name) {
        list
    } else {
        list.push(DiagnosisView { code: None, name, code_system: Some(source) })
    }
}

/// `list` after every row of `rows`, from the first on, whose key occurs in
/// `haystack` has added its value as a diagnosis from `source`.
pub open spec fn rows_applied(
    list: Seq<DiagnosisView>,
    haystack: Seq<char>,
    rows: Seq<EntryView>,
    source: Seq<char>,
) -> Seq<DiagnosisView>
    decreases rows.len(),
{
    if rows.len() == 0 {
        list
    } else {
        let before = rows_applied(list, haystack, rows.drop_last(), source);
        if is_substring(rows.last().key, haystack) {
            with_diagnosis(before, rows.last().value, source)
        } else {
            before
        }
    }
}

/// `list`, and behind it a medication `name` of kind `kind` unless the list
/// has one of that name already, letter case aside.
pub open spec fn with_medication(
    list: Seq<MedicationView>,
    name: Seq<char>,
    kind: Seq<char>,
) -> Seq<MedicationView> {
    if has_name::<Medication>(list, name) {
        list
    } else {
        list.push(MedicationView { name, medication_type: kind })
    }
}

/// `list` after every name of `names` that is longer than three characters
/// has been added, from the first on, as a medication found in text.
pub open spec fn mentions_added(list: Seq<MedicationView>, names: Seq<Seq<char>>) -> Seq<
    MedicationView,
>
    decreases names.len(),
{
    if names.len() == 0 {
        list
    } else {
        let before = mentions_added(list, names.drop_last());
        if names.last().len() > 3 {
            with_medication(before, names.last(), "text_extracted"@)
        } else {
            before
        }
    }
}

/// `list` after the matches of each pattern in `lower`, pattern by pattern,
/// have been added as medications.
pub open spec fn patterns_applied(
    list: Seq<MedicationView>,
    patterns: Seq<Seq<char>>,
    lower: Seq<char>,
) -> Seq<MedicationView>
    decreases patterns.len(),
{
    if patterns.len() == 0 {
        list
    } else {
        mentions_added(
            patterns_applied(list, patterns.drop_last(), lower),
            pattern_matches(patterns.last(), lower),
        )
    }
}

/// `doc` with the diagnoses that the words of a title stand for.
pub open spec fn titled(doc: DocumentView, text: Seq<char>) -> DocumentView {
    DocumentView {
        diagnoses: rows_applied(doc.diagnoses, to_lower(text), title_table(), "title_inferred"@),
        ..doc
    }
}

/// `doc` with the medications that `patterns` find in `text` and the
/// diagnoses whose keyword occurs in it; `text` is searched in lower case.
pub open spec fn mined(doc: DocumentView, text: Seq<char>, patterns: Seq<Seq<char>>) -> DocumentView {
    DocumentView {
        medications: patterns_applied(doc.medications, patterns, to_lower(text)),
        diagnoses: rows_applied(
            doc.diagnoses,
            to_lower(text),
            keyword_table(),
            "text_extracted"@,
        ),
        ..doc
    }
}

/// `list` after each medication of `medications`, from the first on, has
/// added the diagnoses that it is given for.
pub open spec fn inferred(list: Seq<DiagnosisView>, medications: Seq<MedicationView>) -> Seq<
    DiagnosisView,
>
    decreases medications.len(),
{
    if medications.len() == 0 {
        list
    } else {
        rows_applied(
            inferred(list, medications.drop_last()),
            to_lower(medications.last().name),
            inference_table(),
            "medication_inferred"@,
        )
    }
}

/// Whether `doc` has a medication of this name, letter case aside.
pub fn is_duplicate_medication(doc: &CDADocument, name: &str) -> (r: bool)
    ensures
        r == has_name::<Medication>(doc@.medications, name@),
{
    contains_name(&doc.medications, name)
}

/// Whether `doc` has a diagnosis of this name, letter case aside.
pub fn is_duplicate_diagnosis(doc: &CDADocument, name: &str) -> (r: bool)
    ensures
        r == has_name::<Diagnosis>(doc@.diagnoses, name@),
{
    contains_name(&doc.diagnoses, name)
}

/// Adds a diagnosis `name` from `source` unless `list` has one of that name.
pub fn add_diagnosis(list: &mut Vec<Diagnosis>, name: &str, source: &str)
    ensures
        final(list).deep_view() == with_diagnosis(old(list).deep_view(), name@, source@),
{
    if !contains_name(list, name) {
        let ghost before = *list;
        let item = Diagnosis {
            code: None,
            name: name.to_owned(),
            code_system: Some(source.to_owned()),
        };
        list.push(item);
        proof {
            lemma_deep_view_push(before, *list, item);
        }
    }
}

/// Adds a medication `name` of kind `kind` unless `list` has one of that
/// name.
pub fn add_medication(list: &mut Vec<Medication>, name: &str, kind: &str)
    ensures
        final(list).deep_view() == with_medication(old(list).deep_view(), name@, kind@),
{
    if !contains_name(list, name) {
        let ghost before = *list;
        let item = Medication { name: name.to_owned(), medication_type: kind.to_owned() };
        list.push(item);
        proof {
            lemma_deep_view_push(before, *list, item);
        }
    }
}

/// Adds to `list`, row by row, the diagnosis of every row whose key occurs in
/// `haystack`.
pub fn apply_rows(list: &mut Vec<Diagnosis>, haystack: &str, rows: &Vec<Entry>, source: &str)
    ensures
        final(list).deep_view() == rows_applied(
            old(list).deep_view(),
            haystack@,
            rows.deep_view(),
            source@,
        ),
{
    let hay = chars_of(haystack);
    let ghost start = list.deep_view();
    let ghost all = rows.deep_view();
    let n = rows.len();
    let mut i: usize = 0;
    assert(all.take(0) =~= Seq::empty());
    while i < n
        invariant
            i <= n,
            n == rows@.len(),
            all == rows.deep_view(),
            hay@ == haystack@,
            list.deep_view() == rows_applied(start, haystack@, all.take(i as int), source@),
        decreases n - i,
    {
        proof {
            assert(all.take(i + 1).drop_last() =~= all.take(i as int));
            assert(all.take(i + 1).last() == rows@[i as int]@);
        }
        let key = chars_of(rows[i].key);
        if chars_contain(&hay, &key) {
            add_diagnosis(list, rows[i].value, source);
        }
        i += 1;
    }
    assert(all.take(n as int) =~= all);
}

/// Adds the diagnoses that the words of a title stand for.
pub fn extract_diagnoses_from_title(doc: &mut CDADocument, text: &str)
    ensures
        final(doc)@ == titled(old(doc)@, text@),
{
    let lower = lowercase(text);
    let rows = title_entries();
    apply_rows(&mut doc.diagnoses, lower.as_str(), &rows, "title_inferred");
}

/// Adds the names found in a text, those longer than three characters, as
/// medications, from the first on.
pub fn add_text_medications(list: &mut Vec<Medication>, found: &Vec<String>)
    ensures
        final(list).deep_view() == mentions_added(old(list).deep_view(), found.deep_view()),
{
    let ghost start = list.deep_view();
    let ghost all = found.deep_view();
    let n = found.len();
    let mut i: usize = 0;
    assert(all.take(0) =~= Seq::empty());
    while i < n
        invariant
            i <= n,
            n == found@.len(),
            all == found.deep_view(),
            list.deep_view() == mentions_added(start, all.take(i as int)),
        decreases n - i,
    {
        proof {
            assert(all.take(i + 1).drop_last() =~= all.take(i as int));
            assert(all.take(i + 1).last() == found@[i as int]@);
        }
        if found[i].as_str().unicode_len() > 3 {
            add_medication(list, found[i].as_str(), "text_extracted");
        }
        i += 1;
    }
    assert(all.take(n as int) =~= all);
}

/// Looks in `text`, in lower case, for medication mentions and for the
/// keywords of diagnoses, and adds what it finds.
pub fn extract_from_text(doc: &mut CDADocument, text: &str, patterns: &MedicationPatterns)
    ensures
        final(doc)@ == mined(old(doc)@, text@, patterns@),
{
    let lower = lowercase(text);
    let ghost start = doc.medications.deep_view();
    let n = patterns.len();
    let mut i: usize = 0;
    assert(patterns@.take(0) =~= Seq::empty());
    while i < n
        invariant
            i <= n,
            n == patterns@.len(),
            lower@ == to_lower(text@),
            doc.medications.deep_view() == patterns_applied(
                start,
                patterns@.take(i as int),
                lower@,
            ),
            doc.diagnoses == old(doc).diagnoses,
            doc.file_name == old(doc).file_name,
            doc.patient == old(doc).patient,
            doc.document_date == old(doc).document_date,
            doc.author == old(doc).author,
        decreases n - i,
    {
        proof {
            assert(patterns@.take(i + 1).drop_last() =~= patterns@.take(i as int));
            assert(patterns@.take(i + 1).last() == patterns@[i as int]);
        }
        let found = patterns.matches_of(i, lower.as_str());
        add_text_medications(&mut doc.medications, &found);
        i += 1;
    }
    assert(patterns@.take(n as int) =~= patterns@);
    let rows = keyword_entries();
    apply_rows(&mut doc.diagnoses, lower.as_str(), &rows, "text_extracted");
}

/// Adds, for each medication of the document, the diagnoses that it is given
/// for.
pub fn infer_diagnoses_from_medications(doc: &mut CDADocument)
    ensures
        final(doc)@ == (DocumentView {
            diagnoses: inferred(old(doc)@.diagnoses, old(doc)@.medications),
            ..old(doc)@
        }),
{
    let rows = inference_entries();
    let ghost start = doc.diagnoses.deep_view();
    let ghost meds = doc.medications.deep_view();
    let n = doc.medications.len();
    let mut i: usize = 0;
    assert(meds.take(0) =~= Seq::empty());
    while i < n
        invariant
            i <= n,
            n == doc.medications@.len(),
            meds == doc.medications.deep_view(),
            rows.deep_view() == inference_table(),
            doc.diagnoses.deep_view() == inferred(start, meds.take(i as int)),
            doc.medications == old(doc).medications,
            doc.file_name == old(doc).file_name,
            doc.patient == old(doc).patient,
            doc.document_date == old(doc).document_date,
            doc.author == old(doc).author,
        decreases n - i,
    {
        proof {
            assert(meds.take(i + 1).drop_last() =~= meds.take(i as int));
            assert(meds.take(i + 1).last() == doc.medications@[i as int]@);
        }
        let lower = lowercase(doc.medications[i].name.as_str());
        apply_rows(&mut doc.diagnoses, lower.as_str(), &rows, "medication_inferred");
        i += 1;
    }
    assert(meds.take(n as int) =~= meds);
}

} // verus!
