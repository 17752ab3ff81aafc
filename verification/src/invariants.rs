//! What stays true of a document while it is built.

use crate::mining::mentions_added;
use crate::mining::patterns_applied;
use crate::mining::with_medication;
use crate::model::DocumentView;
use crate::model::Medication;
use crate::model::MedicationView;
use crate::model::PatientView;
use crate::order::distinct_names;
use crate::order::has_name;
use crate::order::lemma_distinct_has_no_repeats;
use crate::order::lemma_sorted_distinct;
use crate::order::same_name;
use crate::order::sorted;
use crate::patterns::pattern_matches;
use crate::postprocess::final_medications;
use crate::postprocess::post_processed;
use crate::rules::attribute_applied;
use crate::rules::normalized_medication_name;
use crate::rules::attributes_applied;
use crate::rules::text_applied;
use crate::rules::MAX_AGE;
use crate::text::to_lower;
use crate::text::trimmed;
use crate::walker::initial_state;
use crate::walker::parsed;
use crate::walker::stepped;
use crate::walker::walked;
use crate::walker::ParseStateView;
use crate::xml::AttributeView;
use crate::xml::ReadView;
use crate::xml::XmlEventView;
use vstd::prelude::*;

verus! {

/// Whether an age, where there is one, is at most `MAX_AGE`, and a gender,
/// where there is one, is `M`, `F` or `Unknown`.
pub open spec fn valid_patient(patient: PatientView) -> bool {
    &&& patient.age matches Some(age) ==> age <= MAX_AGE
    &&& patient.gender matches Some(gender) ==> gender == "M"@ || gender == "F"@ || gender
        == "Unknown"@
}

/// Whether the patient is valid and no two medications have the same name,
/// letter case aside.
pub open spec fn well_formed(doc: DocumentView) -> bool {
    &&& valid_patient(doc.patient)
    &&& distinct_names::<Medication>(doc.medications)
}

proof fn lemma_attribute_keeps(
    doc: DocumentView,
    tag: Seq<char>,
    key: Seq<char>,
    value: Seq<char>,
    path: Seq<Seq<char>>,
)
    requires
        well_formed(doc),
    ensures
        well_formed(attribute_applied(doc, tag, key, value, path)),
{
}

proof fn lemma_attributes_keep(
    doc: DocumentView,
    tag: Seq<char>,
    attributes: Seq<AttributeView>,
    path: Seq<Seq<char>>,
)
    requires
        well_formed(doc),
    ensures
        well_formed(attributes_applied(doc, tag, attributes, path)),
    decreases attributes.len(),
{
    if attributes.len() > 0 {
        lemma_attributes_keep(doc, tag, attributes.drop_last(), path);
        lemma_attribute_keeps(
            attributes_applied(doc, tag, attributes.drop_last(), path),
            tag,
            to_lower(attributes.last().key),
            attributes.last().value,
            path,
        );
    }
}

proof fn lemma_with_medication_distinct(
    list: Seq<MedicationView>,
    name: Seq<char>,
    kind: Seq<char>,
)
    requires
        distinct_names::<Medication>(list),
    ensures
        distinct_names::<Medication>(with_medication(list, name, kind)),
{
    let r = with_medication(list, name, kind);
    if !has_name::<Medication>(list, name) {
        assert forall|i: int, j: int| #![trigger r[i], r[j]] 0 <= i < j < r.len() implies !same_name::<
            Medication,
        >(r[i], r[j]) by {
            if j < list.len() {
                assert(!same_name::<Medication>(list[i], list[j]));
            } else {
                assert(r[i] == list[i]);
            }
        }
    }
}

proof fn lemma_mentions_distinct(list: Seq<MedicationView>, names: Seq<Seq<char>>)
    requires
        distinct_names::<Medication>(list),
    ensures
        distinct_names::<Medication>(mentions_added(list, names)),
    decreases names.len(),
{
    if names.len() > 0 {
        lemma_mentions_distinct(list, names.drop_last());
        lemma_with_medication_distinct(
            mentions_added(list, names.drop_last()),
            names.last(),
            "text_extracted"@,
        );
    }
}

proof fn lemma_patterns_distinct(
    list: Seq<MedicationView>,
    patterns: Seq<Seq<char>>,
    lower: Seq<char>,
)
    requires
        distinct_names::<Medication>(list),
    ensures
        distinct_names::<Medication>(patterns_applied(list, patterns, lower)),
    decreases patterns.len(),
{
    if patterns.len() > 0 {
        lemma_patterns_distinct(list, patterns.drop_last(), lower);
        lemma_mentions_distinct(
            patterns_applied(list, patterns.drop_last(), lower),
            pattern_matches(patterns.last(), lower),
        );
    }
}

proof fn lemma_text_keeps(
    doc: DocumentView,
    tag: Seq<char>,
    text: Seq<char>,
    path: Seq<Seq<char>>,
    patterns: Seq<Seq<char>>,
)
    requires
        well_formed(doc),
    ensures
        well_formed(text_applied(doc, tag, text, path, patterns)),
{
    lemma_patterns_distinct(doc.medications, patterns, to_lower(text));
    lemma_with_medication_distinct(
        doc.medications,
        normalized_medication_name(text),
        "structured"@,
    );
}

/// An event leaves a well-formed document well formed.
pub proof fn lemma_step_keeps(state: ParseStateView, event: XmlEventView, patterns: Seq<Seq<char>>)
    requires
        well_formed(state.document),
    ensures
        well_formed(stepped(state, event, patterns).document),
{
    match event {
        XmlEventView::Start { name, attributes } => {
            lemma_attributes_keep(
                state.document,
                to_lower(name),
                attributes,
                state.path.push(to_lower(name)),
            );
        },
        XmlEventView::End { name } => {
            lemma_text_keeps(
                state.document,
                to_lower(name),
                trimmed(state.text),
                state.path,
                patterns,
            );
        },
        _ => {},
    }
}

proof fn lemma_walk_keeps(state: ParseStateView, reads: Seq<ReadView>, patterns: Seq<Seq<char>>)
    requires
        well_formed(state.document),
    ensures
        walked(state, reads, patterns) matches Ok(end) ==> well_formed(end.document),
    decreases reads.len(),
{
    if reads.len() > 0 {
        if let ReadView::Event(event) = reads[0] {
            lemma_step_keeps(state, event, patterns);
            lemma_walk_keeps(stepped(state, event, patterns), reads.drop_first(), patterns);
        }
    }
}

/// Finishing leaves a well-formed document well formed; its medications are
/// then those it had, sorted.
pub proof fn lemma_post_process_keeps(doc: DocumentView)
    requires
        well_formed(doc),
    ensures
        well_formed(post_processed(doc)),
        final_medications(doc) == sorted::<Medication>(doc.medications),
{
    lemma_sorted_distinct::<Medication>(doc.medications);
    lemma_distinct_has_no_repeats::<Medication>(sorted::<Medication>(doc.medications));
}

/// A parsed document is well formed.
pub proof fn lemma_parsed_is_well_formed(
    file_name: Seq<char>,
    reads: Seq<ReadView>,
    patterns: Seq<Seq<char>>,
)
    ensures
        parsed(file_name, reads, patterns) matches Ok(doc) ==> well_formed(doc),
{
    let start = initial_state(file_name);
    lemma_walk_keeps(start, reads, patterns);
    if let Ok(end) = walked(start, reads, patterns) {
        lemma_post_process_keeps(end.document);
    }
}

} // verus!
