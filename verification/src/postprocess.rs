//! The finishing of a document once its text has been read to the end.

use crate::mining::infer_diagnoses_from_medications;
use crate::mining::inferred;
use crate::model::CDADocument;
use crate::model::Diagnosis;
use crate::model::DiagnosisView;
use crate::model::DocumentView;
use crate::model::Medication;
use crate::model::MedicationView;
use crate::model::PatientView;
use crate::order::dedup;
use crate::order::deduplicated;
use crate::order::sort;
use crate::order::sorted;
use crate::text::collapse_whitespace;
use crate::text::collapsed;
use vstd::prelude::*;

verus! {

/// A name with each run of white space made one space, or no name where
/// nothing is left of it.
pub open spec fn tidy_name(name: Option<Seq<char>>) -> Option<Seq<char>> {
    match name {
        Some(text) => if collapsed(text).len() == 0 {
            None
        } else {
            Some(collapsed(text))
        },
        None => None,
    }
}

/// The diagnoses that a document ends with: those it has, or, where it has
/// none, those that its medications are given for; sorted by name, and of
/// neighbours with the same name, letter case aside, the first only.
pub open spec fn final_diagnoses(doc: DocumentView) -> Seq<DiagnosisView> {
    deduplicated::<Diagnosis>(
        sorted::<Diagnosis>(
            if doc.diagnoses.len() == 0 {
                inferred(doc.diagnoses, doc.medications)
            } else {
                doc.diagnoses
            },
        ),
    )
}

/// The medications that a document ends with: sorted by name, and of
/// neighbours with the same name, letter case aside, the first only.
pub open spec fn final_medications(doc: DocumentView) -> Seq<MedicationView> {
    deduplicated::<Medication>(sorted::<Medication>(doc.medications))
}

/// The finished form of `doc`.
pub open spec fn post_processed(doc: DocumentView) -> DocumentView {
    DocumentView {
        patient: PatientView { name: tidy_name(doc.patient.name), ..doc.patient },
        diagnoses: final_diagnoses(doc),
        medications: final_medications(doc),
        ..doc
    }
}

/// Finishes a document: tidies the patient's name, infers diagnoses from the
/// medications where there is no diagnosis, and sorts both lists and removes
/// repeated names from them.
pub fn post_process_document(doc: &mut CDADocument)
    ensures
        final(doc)@ == post_processed(old(doc)@),
{
    let tidy = match &doc.patient.name {
        Some(name) => {
            let one_spaced = collapse_whitespace(name.as_str());
            if one_spaced.as_str().is_empty() {
                None
            } else {
                Some(one_spaced)
            }
        },
        None => None,
    };
    doc.patient.name = tidy;
    if doc.diagnoses.len() == 0 {
        infer_diagnoses_from_medications(doc);
    }
    sort(&mut doc.diagnoses);
    dedup(&mut doc.diagnoses);
    sort(&mut doc.medications);
    dedup(&mut doc.medications);
}

} // verus!
