//! The extracted data and its mathematical model.
//!
//! Every type has a view in which each text is its sequence of characters and
//! each list a `Seq`; the contracts of the library are stated over the views.

use crate::order::Named;
use crate::order::Ordered;
use crate::text::lemma_lex_le_total;
use crate::text::lemma_lex_le_transitive;
use crate::text::lex_le;
use crate::text::text_le;
use vstd::prelude::*;

verus! {

/// The view of a [`Patient`].
pub struct PatientView {
    pub id: Option<Seq<char>>,
    pub name: Option<Seq<char>>,
    pub gender: Option<Seq<char>>,
    pub birth_date: Option<Seq<char>>,
    pub age: Option<u32>,
}

/// The view of a [`Diagnosis`].
pub struct DiagnosisView {
    pub code: Option<Seq<char>>,
    pub name: Seq<char>,
    pub code_system: Option<Seq<char>>,
}

/// The view of a [`Medication`].
pub struct MedicationView {
    pub name: Seq<char>,
    pub medication_type: Seq<char>,
}

/// The view of a [`CDADocument`].
pub struct DocumentView {
    pub file_name: Seq<char>,
    pub patient: PatientView,
    pub diagnoses: Seq<DiagnosisView>,
    pub medications: Seq<MedicationView>,
    pub document_date: Option<Seq<char>>,
    pub author: Option<Seq<char>>,
}

/// A name with the number of times it was seen.
pub struct CountView {
    pub name: Seq<char>,
    pub count: u32,
}

/// The view of a [`Statistics`].
pub struct StatisticsView {
    pub total_documents: u32,
    pub total_patients: u32,
    pub age_sum: u32,
    pub age_count: u32,
    pub gender_distribution: Seq<CountView>,
    pub top_diagnoses: Seq<CountView>,
    pub top_medications: Seq<CountView>,
    pub processing_time_ms: u64,
}

/// The patient of one document. Every field is absent until the document
/// supplies it.
#[derive(Debug, Clone, PartialEq, Eq)]
pub struct Patient {
    pub id: Option<String>,
    pub name: Option<String>,
    /// `M`, `F` or `Unknown`.
    pub gender: Option<String>,
    /// The birth date as the document wrote it.
    pub birth_date: Option<String>,
    /// Age in years, between 0 and 150.
    pub age: Option<u32>,
}

/// A diagnosis of one document. The name tells diagnoses apart, letter case
/// aside.
#[derive(Debug, Clone, PartialEq, Eq)]
pub struct Diagnosis {
    pub code: Option<String>,
    pub name: String,
    /// Where the diagnosis came from: `text_extracted`, `title_inferred`,
    /// `medication_inferred`, or absent for a coded entry.
    pub code_system: Option<String>,
}

/// A medication of one document. The name tells medications apart, letter
/// case aside.
#[derive(Debug, Clone, PartialEq, Eq)]
pub struct Medication {
    pub name: String,
    /// `structured` or `text_extracted`.
    pub medication_type: String,
}

/// What was extracted from one clinical document.
#[derive(Debug, Clone, PartialEq, Eq)]
pub struct CDADocument {
    pub file_name: String,
    pub patient: Patient,
    pub diagnoses: Vec<Diagnosis>,
    pub medications: Vec<Medication>,
    pub document_date: Option<String>,
    pub author: Option<String>,
}

/// A gender and the number of documents counted under it.
#[derive(Debug, Clone, PartialEq, Eq)]
pub struct GenderCount {
    pub gender: String,
    pub count: u32,
}

/// A diagnosis name and the number of diagnoses of that name.
#[derive(Debug, Clone, PartialEq, Eq)]
pub struct DiagnosisCount {
    pub name: String,
    pub count: u32,
}

/// A medication name and the number of medications of that name.
#[derive(Debug, Clone, PartialEq, Eq)]
pub struct MedicationCount {
    pub name: String,
    pub count: u32,
}

/// Figures over a collection of documents. All counters wrap at 2^32.
#[derive(Debug, Clone, PartialEq, Eq)]
pub struct Statistics {
    pub total_documents: u32,
    /// One patient per document.
    pub total_patients: u32,
    /// The sum of the known ages; the average age is `age_sum / age_count`,
    /// and 0 where `age_count` is 0.
    pub age_sum: u32,
    /// The number of patients whose age is known.
    pub age_count: u32,
    /// Genders in the order in which they were first seen; a patient without
    /// gender counts as `Unknown`.
    pub gender_distribution: Vec<GenderCount>,
    /// At most five, the most frequent first; of two that are equally
    /// frequent, the one seen first in the documents comes first.
    pub top_diagnoses: Vec<DiagnosisCount>,
    pub top_medications: Vec<MedicationCount>,
    /// Left at 0 by the library, which has no clock; the caller that times
    /// the work stores the elapsed milliseconds here.
    pub processing_time_ms: u64,
}

impl View for Patient {
    type V = PatientView;

    open spec fn view(&self) -> PatientView {
        PatientView {
            id: self.id.deep_view(),
            name: self.name.deep_view(),
            gender: self.gender.deep_view(),
            birth_date: self.birth_date.deep_view(),
            age: self.age,
        }
    }
}

impl DeepView for Patient {
    type V = PatientView;

    open spec fn deep_view(&self) -> PatientView {
        self@
    }
}

impl View for Diagnosis {
    type V = DiagnosisView;

    open spec fn view(&self) -> DiagnosisView {
        DiagnosisView {
            code: self.code.deep_view(),
            name: self.name@,
            code_system: self.code_system.deep_view(),
        }
    }
}

impl DeepView for Diagnosis {
    type V = DiagnosisView;

    open spec fn deep_view(&self) -> DiagnosisView {
        self@
    }
}

impl View for Medication {
    type V = MedicationView;

    open spec fn view(&self) -> MedicationView {
        MedicationView { name: self.name@, medication_type: self.medication_type@ }
    }
}

impl DeepView for Medication {
    type V = MedicationView;

    open spec fn deep_view(&self) -> MedicationView {
        self@
    }
}

impl View for CDADocument {
    type V = DocumentView;

    open spec fn view(&self) -> DocumentView {
        DocumentView {
            file_name: self.file_name@,
            patient: self.patient@,
            diagnoses: self.diagnoses.deep_view(),
            medications: self.medications.deep_view(),
            document_date: self.document_date.deep_view(),
            author: self.author.deep_view(),
        }
    }
}

impl DeepView for CDADocument {
    type V = DocumentView;

    open spec fn deep_view(&self) -> DocumentView {
        self@
    }
}

impl View for GenderCount {
    type V = CountView;

    open spec fn view(&self) -> CountView {
        CountView { name: self.gender@, count: self.count }
    }
}

impl DeepView for GenderCount {
    type V = CountView;

    open spec fn deep_view(&self) -> CountView {
        self@
    }
}

impl View for DiagnosisCount {
    type V = CountView;

    open spec fn view(&self) -> CountView {
        CountView { name: self.name@, count: self.count }
    }
}

impl DeepView for DiagnosisCount {
    type V = CountView;

    open spec fn deep_view(&self) -> CountView {
        self@
    }
}

impl View for MedicationCount {
    type V = CountView;

    open spec fn view(&self) -> CountView {
        CountView { name: self.name@, count: self.count }
    }
}

impl DeepView for MedicationCount {
    type V = CountView;

    open spec fn deep_view(&self) -> CountView {
        self@
    }
}

impl View for Statistics {
    type V = StatisticsView;

    open spec fn view(&self) -> StatisticsView {
        StatisticsView {
            total_documents: self.total_documents,
            total_patients: self.total_patients,
            age_sum: self.age_sum,
            age_count: self.age_count,
            gender_distribution: self.gender_distribution.deep_view(),
            top_diagnoses: self.top_diagnoses.deep_view(),
            top_medications: self.top_medications.deep_view(),
            processing_time_ms: self.processing_time_ms,
        }
    }
}

impl CDADocument {
    /// A document that holds nothing but its file name.
    pub open spec fn blank(file_name: Seq<char>) -> DocumentView {
        DocumentView {
            file_name,
            patient: PatientView { id: None, name: None, gender: None, birth_date: None, age: None },
            diagnoses: Seq::empty(),
            medications: Seq::empty(),
            document_date: None,
            author: None,
        }
    }

    /// A document that holds nothing but its file name.
    pub fn new(file_name: &str) -> (doc: CDADocument)
        ensures
            doc@ == Self::blank(file_name@),
    {
        let doc = CDADocument {
            file_name: file_name.to_owned(),
            patient: Patient { id: None, name: None, gender: None, birth_date: None, age: None },
            diagnoses: Vec::new(),
            medications: Vec::new(),
            document_date: None,
            author: None,
        };
        assert(doc.diagnoses.deep_view() =~= Seq::empty());
        assert(doc.medications.deep_view() =~= Seq::empty());
        doc
    }
}

/// Diagnoses are ordered by name, code point by code point.
impl Ordered for Diagnosis {
    open spec fn may_precede(a: DiagnosisView, b: DiagnosisView) -> bool {
        lex_le(a.name, b.name)
    }

    proof fn order_is_total(a: DiagnosisView, b: DiagnosisView) {
        lemma_lex_le_total(a.name, b.name);
    }

    proof fn order_is_transitive(a: DiagnosisView, b: DiagnosisView, c: DiagnosisView) {
        lemma_lex_le_transitive(a.name, b.name, c.name);
    }

    fn precedes(&self, other: &Self) -> (r: bool) {
        text_le(self.name.as_str(), other.name.as_str())
    }
}

impl Named for Diagnosis {
    open spec fn name_of(v: DiagnosisView) -> Seq<char> {
        v.name
    }

    fn name(&self) -> (r: &String) {
        &self.name
    }
}

/// Medications are ordered by name, code point by code point.
impl Ordered for Medication {
    open spec fn may_precede(a: MedicationView, b: MedicationView) -> bool {
        lex_le(a.name, b.name)
    }

    proof fn order_is_total(a: MedicationView, b: MedicationView) {
        lemma_lex_le_total(a.name, b.name);
    }

    proof fn order_is_transitive(a: MedicationView, b: MedicationView, c: MedicationView) {
        lemma_lex_le_transitive(a.name, b.name, c.name);
    }

    fn precedes(&self, other: &Self) -> (r: bool) {
        text_le(self.name.as_str(), other.name.as_str())
    }
}

impl Named for Medication {
    open spec fn name_of(v: MedicationView) -> Seq<char> {
        v.name
    }

    fn name(&self) -> (r: &String) {
        &self.name
    }
}


/// The views of a list after one more item is the views before, and the
/// item's view.
pub proof fn lemma_deep_view_push<T: DeepView>(before: Vec<T>, after: Vec<T>, item: T)
    requires
        after@ == before@.push(item),
    ensures
        after.deep_view() == before.deep_view().push(item.deep_view()),
{
    assert(after.deep_view() =~= before.deep_view().push(item.deep_view()));
}

} // verus!
