//! What holds of the library as a whole.

use crate::invariants::lemma_parsed_is_well_formed;
use crate::invariants::well_formed;
use crate::mining::inferred;
use crate::mining::rows_applied;
use crate::model::CountView;
use crate::model::Diagnosis;
use crate::model::DiagnosisView;
use crate::model::DocumentView;
use crate::model::Medication;
use crate::model::MedicationView;
use crate::model::StatisticsView;
use crate::order::deduplicated;
use crate::order::lemma_in_order_pairwise;
use crate::order::lemma_sorted_permutes;
use crate::order::Ordered;
use crate::order::lemma_deduplicated_shape;
use crate::order::lemma_deduplicated_within;
use crate::order::lemma_sorted_in_order;
use crate::order::lemma_sorted_within;
use crate::order::lemma_tidy_twice;
use crate::order::sorted;
use crate::parser::batch_parsed;
use crate::postprocess::final_diagnoses;
use crate::postprocess::final_medications;
use crate::postprocess::post_processed;
use crate::postprocess::tidy_name;
use crate::rules::age_in;
use crate::rules::normalized_gender;
use crate::rules::MAX_AGE;
use crate::stats::count_of;
use crate::stats::diagnoses_counted;
use crate::stats::diagnosis_mentions;
use crate::stats::distinct_rows;
use crate::stats::gender_mentions;
use crate::stats::gender_of;
use crate::stats::genders_counted;
use crate::stats::lemma_bumped_wraps;
use crate::stats::lemma_counted_effect;
use crate::stats::lemma_names_counted;
use crate::stats::medication_mentions;
use crate::stats::medications_counted;
use crate::stats::statistics_of;
use crate::stats::top_five;
use crate::stats::wrap32;
use crate::stats::Tally;
use crate::tables::inference_table;
use crate::tables::EntryView;
use crate::text::is_blank;
use crate::text::is_substring;
use crate::text::leading_year;
use crate::text::lemma_blank_trims_to_empty;
use crate::text::lemma_collapsed_idempotent;
use crate::text::lemma_lex_le_antisymmetric;
use crate::text::lemma_lex_le_reflexive;
use crate::text::lemma_lex_le_total;
use crate::text::lemma_lex_le_transitive;
use crate::text::lex_le;
use crate::text::same_ignoring_ascii_case;
use crate::text::to_lower;
use crate::text::trimmed;
use crate::walker::parsed;
use crate::xml::document_reads;
use crate::xml::ReadView;
use vstd::prelude::*;

verus! {

/// An age, where one is derived, is the year less the year of birth and lies
/// between 0 and `MAX_AGE`; none is derived where the date does not start
/// with a year or the difference lies outside that range.
pub proof fn law_age_from_birth_date(date: Seq<char>, year: int)
    ensures
        match leading_year(date) {
            Some(born) => if 0 <= year - born <= MAX_AGE {
                age_in(date, year) == Some((year - born) as u32)
            } else {
                age_in(date, year) is None
            },
            None => age_in(date, year) is None,
        },
        age_in(date, year) matches Some(age) ==> age <= MAX_AGE,
{
}

/// Every code has a gender, which is `M`, `F` or `Unknown`, and the gender of
/// a gender is itself. `M`, `MALE` and `m` give `M`; `F` and `FEMALE` give
/// `F`; the empty code gives `Unknown`.
pub proof fn law_gender_normalization(code: Seq<char>)
    ensures
        normalized_gender(code) == "M"@ || normalized_gender(code) == "F"@ || normalized_gender(
            code,
        ) == "Unknown"@,
        normalized_gender(normalized_gender(code)) == normalized_gender(code),
        normalized_gender("M"@) == "M"@,
        normalized_gender("MALE"@) == "M"@,
        normalized_gender("m"@) == "M"@,
        normalized_gender("F"@) == "F"@,
        normalized_gender("FEMALE"@) == "F"@,
        normalized_gender(Seq::empty()) == "Unknown"@,
{
    reveal_strlit("M");
    reveal_strlit("m");
    reveal_strlit("MALE");
    reveal_strlit("F");
    reveal_strlit("FEMALE");
    reveal_strlit("Unknown");
    assert(same_ignoring_ascii_case("M"@, "M"@));
    assert(same_ignoring_ascii_case("MALE"@, "MALE"@));
    assert(same_ignoring_ascii_case("m"@, "M"@));
    assert(same_ignoring_ascii_case("F"@, "F"@));
    assert(same_ignoring_ascii_case("FEMALE"@, "FEMALE"@));
    assert(!same_ignoring_ascii_case("F"@, "M"@)) by {
        assert("F"@[0] == 'F' && "M"@[0] == 'M');
    }
    assert(!same_ignoring_ascii_case("FEMALE"@, "M"@));
    assert(!same_ignoring_ascii_case("FEMALE"@, "MALE"@));
    assert(!same_ignoring_ascii_case("F"@, "MALE"@));
}

/// Whether no part of a medication name that the inference table knows occurs
/// in the name of `medication`.
pub open spec fn implies_no_diagnosis(medication: MedicationView) -> bool {
    forall|k: int|
        0 <= k < inference_table().len() ==> !is_substring(
            (#[trigger] inference_table()[k]).key,
            to_lower(medication.name),
        )
}

proof fn lemma_rows_grow(
    list: Seq<DiagnosisView>,
    haystack: Seq<char>,
    rows: Seq<EntryView>,
    source: Seq<char>,
)
    ensures
        rows_applied(list, haystack, rows, source).len() >= list.len(),
        (forall|k: int| 0 <= k < rows.len() ==> !is_substring((#[trigger] rows[k]).key, haystack))
            ==> rows_applied(list, haystack, rows, source) == list,
        (exists|k: int| 0 <= k < rows.len() && is_substring((#[trigger] rows[k]).key, haystack))
            ==> rows_applied(list, haystack, rows, source).len() > 0,
    decreases rows.len(),
{
    if rows.len() > 0 {
        let front = rows.drop_last();
        lemma_rows_grow(list, haystack, front, source);
        let before = rows_applied(list, haystack, front, source);
        if forall|k: int| 0 <= k < rows.len() ==> !is_substring((#[trigger] rows[k]).key, haystack) {
            assert forall|k: int| 0 <= k < front.len() implies !is_substring(
                (#[trigger] front[k]).key,
                haystack,
            ) by {
                assert(front[k] == rows[k]);
            }
            assert(!is_substring(rows[rows.len() - 1].key, haystack));
        }
        if exists|k: int| 0 <= k < rows.len() && is_substring((#[trigger] rows[k]).key, haystack) {
            let k = choose|k: int|
                0 <= k < rows.len() && is_substring((#[trigger] rows[k]).key, haystack);
            if k < front.len() {
                assert(front[k] == rows[k]);
            } else {
                assert(rows.last() == rows[k]);
            }
        }
    }
}

proof fn lemma_inferred_grows(list: Seq<DiagnosisView>, medications: Seq<MedicationView>)
    ensures
        inferred(list, medications).len() >= list.len(),
        (forall|m: int|
            0 <= m < medications.len() ==> implies_no_diagnosis(#[trigger] medications[m]))
            ==> inferred(list, medications) == list,
        (exists|m: int|
            0 <= m < medications.len() && !implies_no_diagnosis(#[trigger] medications[m]))
            ==> inferred(list, medications).len() > 0,
    decreases medications.len(),
{
    if medications.len() > 0 {
        let front = medications.drop_last();
        let last = medications.last();
        lemma_inferred_grows(list, front);
        let before = inferred(list, front);
        lemma_rows_grow(before, to_lower(last.name), inference_table(), "medication_inferred"@);
        if forall|m: int|
            0 <= m < medications.len() ==> implies_no_diagnosis(#[trigger] medications[m]) {
            assert forall|m: int| 0 <= m < front.len() implies implies_no_diagnosis(
                #[trigger] front[m],
            ) by {
                assert(front[m] == medications[m]);
            }
            assert(implies_no_diagnosis(medications[medications.len() - 1]));
        }
        if exists|m: int|
            0 <= m < medications.len() && !implies_no_diagnosis(#[trigger] medications[m]) {
            let m = choose|m: int|
                0 <= m < medications.len() && !implies_no_diagnosis(#[trigger] medications[m]);
            if m < front.len() {
                assert(front[m] == medications[m]);
            } else {
                assert(last == medications[m]);
            }
        }
    }
}

/// Finishing a finished document changes nothing.
pub proof fn law_post_process_idempotent(doc: DocumentView)
    ensures
        post_processed(post_processed(doc)) == post_processed(doc),
{
    let once = post_processed(doc);
    let twice = post_processed(once);
    assert(tidy_name(once.patient.name) == once.patient.name) by {
        if let Some(text) = doc.patient.name {
            lemma_collapsed_idempotent(text);
        }
    }
    assert(final_medications(once) == once.medications) by {
        lemma_tidy_twice::<Medication>(doc.medications);
    }
    assert(final_diagnoses(once) == once.diagnoses) by {
        let given = if doc.diagnoses.len() == 0 {
            inferred(doc.diagnoses, doc.medications)
        } else {
            doc.diagnoses
        };
        lemma_tidy_twice::<Diagnosis>(given);
        if once.diagnoses.len() == 0 {
            lemma_sorted_in_order::<Diagnosis>(given);
            lemma_deduplicated_shape::<Diagnosis>(sorted::<Diagnosis>(given));
            assert(given.len() == 0);
            assert(doc.diagnoses.len() == 0);
            lemma_inferred_grows(doc.diagnoses, doc.medications);
            let kept = once.medications;
            assert forall|m: int| 0 <= m < kept.len() implies implies_no_diagnosis(
                #[trigger] kept[m],
            ) by {
                let ranked = sorted::<Medication>(doc.medications);
                lemma_deduplicated_within::<Medication>(ranked);
                lemma_sorted_within::<Medication>(doc.medications);
                let r = choose|r: int| 0 <= r < ranked.len() && ranked[r] == kept[m];
                let o = choose|o: int|
                    0 <= o < doc.medications.len() && doc.medications[o] == ranked[r];
                assert(implies_no_diagnosis(doc.medications[o]));
            }
            lemma_inferred_grows(once.diagnoses, kept);
            assert(inferred(once.diagnoses, kept) == once.diagnoses);
            assert(once.diagnoses =~= given);
        }
    }
}

/// A document that has a diagnosis gets none from its medications: every
/// diagnosis that it ends with is one that it had.
pub proof fn law_inference_needs_empty_list(doc: DocumentView)
    requires
        doc.diagnoses.len() > 0,
    ensures
        final_diagnoses(doc) == deduplicated::<Diagnosis>(sorted::<Diagnosis>(doc.diagnoses)),
        forall|i: int|
            0 <= i < post_processed(doc).diagnoses.len() ==> doc.diagnoses.contains(
                #[trigger] post_processed(doc).diagnoses[i],
            ),
{
    let ranked = sorted::<Diagnosis>(doc.diagnoses);
    let kept = deduplicated::<Diagnosis>(ranked);
    lemma_deduplicated_within::<Diagnosis>(ranked);
    lemma_sorted_within::<Diagnosis>(doc.diagnoses);
    assert forall|i: int| 0 <= i < kept.len() implies doc.diagnoses.contains(#[trigger] kept[i]) by {
        let r = choose|r: int| 0 <= r < ranked.len() && ranked[r] == kept[i];
        let o = choose|o: int| 0 <= o < doc.diagnoses.len() && doc.diagnoses[o] == ranked[r];
        assert(doc.diagnoses[o] == kept[i]);
    }
}

/// The figures over no documents are all zero, and the lists are empty.
pub proof fn law_statistics_of_nothing()
    ensures
        statistics_of(Seq::empty()) == (StatisticsView {
            total_documents: 0,
            total_patients: 0,
            age_sum: 0,
            age_count: 0,
            gender_distribution: Seq::empty(),
            top_diagnoses: Seq::empty(),
            top_medications: Seq::empty(),
            processing_time_ms: 0,
        }),
{
    assert(sorted::<Tally>(Seq::<CountView>::empty()) =~= Seq::empty());
}

/// There are as many patients as documents.
pub proof fn law_one_patient_per_document(docs: Seq<DocumentView>)
    ensures
        statistics_of(docs).total_patients == statistics_of(docs).total_documents,
{
}

/// A document that parsing gives has a valid patient, and no two of its
/// medications have the same name, letter case aside.
pub proof fn law_parsed_document_is_well_formed(
    file_name: Seq<char>,
    reads: Seq<ReadView>,
    patterns: Seq<Seq<char>>,
)
    ensures
        parsed(file_name, reads, patterns) matches Ok(doc) ==> well_formed(doc),
{
    lemma_parsed_is_well_formed(file_name, reads, patterns);
}

/// The order of texts is a total order.
pub proof fn law_text_order(a: Seq<char>, b: Seq<char>, c: Seq<char>)
    ensures
        lex_le(a, a),
        lex_le(a, b) || lex_le(b, a),
        lex_le(a, b) && lex_le(b, a) ==> a == b,
        lex_le(a, b) && lex_le(b, c) ==> lex_le(a, c),
{
    lemma_lex_le_reflexive(a);
    lemma_lex_le_total(a, b);
    if lex_le(a, b) && lex_le(b, a) {
        lemma_lex_le_antisymmetric(a, b);
    }
    if lex_le(a, b) && lex_le(b, c) {
        lemma_lex_le_transitive(a, b, c);
    }
}

/// A text is blank exactly when nothing is left of it without the white
/// space at its ends.
pub proof fn law_blank_text(s: Seq<char>)
    ensures
        is_blank(s) <==> trimmed(s).len() == 0,
{
    lemma_blank_trims_to_empty(s);
}

/// A sorted list holds the items of the list it came from, each as often,
/// and every item of it may stand before every later one.
pub proof fn law_sorted<T: Ordered>(s: Seq<T::V>)
    ensures
        sorted::<T>(s).to_multiset() == s.to_multiset(),
        sorted::<T>(s).len() == s.len(),
        forall|i: int, j: int|
            #![trigger sorted::<T>(s)[i], sorted::<T>(s)[j]]
            0 <= i <= j < s.len() ==> T::may_precede(sorted::<T>(s)[i], sorted::<T>(s)[j]),
{
    lemma_sorted_permutes::<T>(s);
    lemma_sorted_in_order::<T>(s);
    let r = sorted::<T>(s);
    assert forall|i: int, j: int| #![trigger r[i], r[j]] 0 <= i <= j < s.len() implies T::may_precede(
        r[i],
        r[j],
    ) by {
        lemma_in_order_pairwise::<T>(r, i, j);
    }
}

/// The ranking holds at most five names, those of the table that come first
/// when the table is sorted by falling count.
pub proof fn law_top_five(table: Seq<CountView>)
    ensures
        top_five(table).len() == if table.len() > 5 {
            5
        } else {
            table.len()
        },
        forall|i: int|
            0 <= i < top_five(table).len() ==> #[trigger] top_five(table)[i] == sorted::<Tally>(
                table,
            )[i],
        forall|i: int, j: int|
            #![trigger sorted::<Tally>(table)[i], sorted::<Tally>(table)[j]]
            0 <= i <= j < table.len() ==> sorted::<Tally>(table)[i].count >= sorted::<Tally>(
                table,
            )[j].count,
{
    law_sorted::<Tally>(table);
}

/// The count of a gender is the number of documents counted under it, as a
/// counter of 32 bits shows it, and no gender has two rows.
pub proof fn law_gender_counts(docs: Seq<DocumentView>, gender: Seq<char>)
    ensures
        count_of(genders_counted(docs), gender) == wrap32(gender_mentions(docs, gender)),
        gender_mentions(docs, gender) >= 0,
        distinct_rows(genders_counted(docs)),
    decreases docs.len(),
{
    if docs.len() > 0 {
        law_gender_counts(docs.drop_last(), gender);
        lemma_counted_effect(genders_counted(docs.drop_last()), gender_of(docs.last()), gender);
        lemma_bumped_wraps(gender_mentions(docs.drop_last(), gender));
    }
}

/// The count of a diagnosis name is the number of diagnoses of that name in
/// the documents, as a counter of 32 bits shows it, and no name has two rows.
pub proof fn law_diagnosis_counts(docs: Seq<DocumentView>, name: Seq<char>)
    ensures
        count_of(diagnoses_counted(docs), name) == wrap32(diagnosis_mentions(docs, name)),
        diagnosis_mentions(docs, name) >= 0,
        distinct_rows(diagnoses_counted(docs)),
    decreases docs.len(),
{
    if docs.len() > 0 {
        law_diagnosis_counts(docs.drop_last(), name);
        lemma_names_counted::<Diagnosis>(
            diagnoses_counted(docs.drop_last()),
            docs.last().diagnoses,
            name,
        );
    }
}

/// The count of a medication name is the number of medications of that name
/// in the documents, as a counter of 32 bits shows it, and no name has two
/// rows.
pub proof fn law_medication_counts(docs: Seq<DocumentView>, name: Seq<char>)
    ensures
        count_of(medications_counted(docs), name) == wrap32(medication_mentions(docs, name)),
        medication_mentions(docs, name) >= 0,
        distinct_rows(medications_counted(docs)),
    decreases docs.len(),
{
    if docs.len() > 0 {
        law_medication_counts(docs.drop_last(), name);
        lemma_names_counted::<Medication>(
            medications_counted(docs.drop_last()),
            docs.last().medications,
            name,
        );
    }
}

/// A batch keeps one document for each file that can be read and none for
/// the others, so never more documents than there are files; and every
/// document kept is well formed.
pub proof fn law_batch_keeps_what_can_be_read(
    files: Seq<(Seq<char>, Seq<char>)>,
    patterns: Seq<Seq<char>>,
)
    ensures
        batch_parsed(files, patterns).len() <= files.len(),
        files.len() > 0 ==> batch_parsed(files, patterns).len() == batch_parsed(
            files.drop_last(),
            patterns,
        ).len() + if parsed(files.last().0, document_reads(files.last().1), patterns) is Ok {
            1int
        } else {
            0int
        },
        forall|i: int|
            0 <= i < batch_parsed(files, patterns).len() ==> well_formed(
                #[trigger] batch_parsed(files, patterns)[i],
            ),
    decreases files.len(),
{
    if files.len() > 0 {
        law_batch_keeps_what_can_be_read(files.drop_last(), patterns);
        lemma_parsed_is_well_formed(files.last().0, document_reads(files.last().1), patterns);
    }
}

} // verus!
