use cda_parser::order::dedup;
use cda_parser::order::sort;
use cda_parser::postprocess::post_process_document;
use cda_parser::stats::calculate_statistics;
use cda_parser::stats::count_name;
use cda_parser::stats::rank_top_five;
use cda_parser::stats::Tally;
use cda_parser::CDADocument;
use cda_parser::Diagnosis;
use cda_parser::DiagnosisCount;
use cda_parser::GenderCount;
use cda_parser::Medication;
use cda_parser::MedicationCount;

fn medication(name: &str) -> Medication {
    Medication { name: name.to_string(), medication_type: "structured".to_string() }
}

fn diagnosis(name: &str) -> Diagnosis {
    Diagnosis { code: None, name: name.to_string(), code_system: None }
}

fn document(gender: Option<&str>, age: Option<u32>, diagnoses: &[&str], medications: &[&str]) -> CDADocument {
    let mut doc = CDADocument::new("x.xml");
    doc.patient.gender = gender.map(|g| g.to_string());
    doc.patient.age = age;
    doc.diagnoses = diagnoses.iter().map(|n| diagnosis(n)).collect();
    doc.medications = medications.iter().map(|n| medication(n)).collect();
    doc
}

fn tally(name: &str, count: u32) -> Tally {
    Tally { name: name.to_string(), count }
}

#[test]
fn sorting_is_by_code_point_and_stable() {
    let mut list = vec![
        Diagnosis { code: Some("1".to_string()), name: "b".to_string(), code_system: None },
        diagnosis("a"),
        Diagnosis { code: Some("2".to_string()), name: "b".to_string(), code_system: None },
        diagnosis("B"),
        diagnosis("á"),
        diagnosis(""),
    ];
    sort(&mut list);
    let seen: Vec<(&str, Option<&str>)> = list.iter().map(|d| (d.name.as_str(), d.code.as_deref())).collect();
    assert_eq!(seen, vec![("", None), ("B", None), ("a", None), ("b", Some("1")), ("b", Some("2")), ("á", None)]);
    let mut expected: Vec<String> = vec!["b", "a", "b", "B", "á", ""].into_iter().map(String::from).collect();
    expected.sort();
    assert_eq!(list.iter().map(|d| d.name.clone()).collect::<Vec<String>>(), expected);
}

#[test]
fn dedup_keeps_the_first_of_neighbours_with_one_name() {
    let mut list = vec![medication("Asma"), medication("ASMA"), medication("b"), medication("asma"), medication("asmA")];
    let mut expected = list.clone();
    expected.dedup_by(|a, b| a.name.to_lowercase() == b.name.to_lowercase());
    dedup(&mut list);
    assert_eq!(list, expected);
    assert_eq!(list, vec![medication("Asma"), medication("b"), medication("asma")]);
    let mut none: Vec<Medication> = Vec::new();
    dedup(&mut none);
    assert!(none.is_empty());
}

#[test]
fn finishing_a_document_twice_changes_nothing() {
    let mut doc = document(Some("F"), Some(30), &[], &["warfarina", "Enalapril", "enalapril", "Zinc", "ENALAPRIL"]);
    doc.patient.name = Some("  Ana   Pérez ".to_string());
    post_process_document(&mut doc);
    assert_eq!(doc.patient.name.as_deref(), Some("Ana Pérez"));
    assert_eq!(
        doc.medications.iter().map(|m| m.name.as_str()).collect::<Vec<&str>>(),
        vec!["ENALAPRIL", "Zinc", "enalapril", "warfarina"]
    );
    assert_eq!(
        doc.diagnoses.iter().map(|d| d.name.as_str()).collect::<Vec<&str>>(),
        vec!["Hipertensión arterial", "Trastorno de coagulación"]
    );
    let once = doc.clone();
    post_process_document(&mut doc);
    assert_eq!(doc, once);
}

#[test]
fn a_name_of_white_space_is_no_name() {
    let mut doc = CDADocument::new("x.xml");
    doc.patient.name = Some(" \t ".to_string());
    post_process_document(&mut doc);
    assert_eq!(doc.patient.name, None);
    post_process_document(&mut doc);
    assert_eq!(doc, CDADocument::new("x.xml"));
}

#[test]
fn names_are_counted_where_they_first_appeared() {
    let mut table: Vec<Tally> = Vec::new();
    for name in ["Asma", "Diabetes", "Asma", "asma", "Asma"] {
        count_name(&mut table, name);
    }
    assert_eq!(table, vec![tally("Asma", 3), tally("Diabetes", 1), tally("asma", 1)]);
}

#[test]
fn a_counter_wraps_at_the_end_of_its_range() {
    let mut table = vec![tally("Asma", u32::MAX)];
    count_name(&mut table, "Asma");
    assert_eq!(table, vec![tally("Asma", 0)]);
}

#[test]
fn the_five_most_frequent_come_first_and_ties_keep_their_order() {
    let table = vec![tally("a", 1), tally("b", 3), tally("c", 2), tally("d", 3), tally("e", 1), tally("f", 2), tally("g", 5)];
    assert_eq!(
        rank_top_five(table),
        vec![tally("g", 5), tally("b", 3), tally("d", 3), tally("c", 2), tally("f", 2)]
    );
    assert_eq!(rank_top_five(vec![tally("a", 1), tally("b", 2)]), vec![tally("b", 2), tally("a", 1)]);
    assert_eq!(rank_top_five(Vec::new()), Vec::<Tally>::new());
}

#[test]
fn statistics_count_over_all_documents() {
    let documents = vec![
        document(Some("F"), Some(34), &["Asma", "Diabetes"], &["Metformina"]),
        document(None, None, &["Asma"], &[]),
        document(Some("M"), Some(51), &["Diabetes", "Asma", "Gota"], &["Enalapril", "Metformina"]),
        document(Some("F"), Some(0), &[], &["Metformina"]),
        document(Some("Unknown"), None, &["A", "B", "C", "D"], &[]),
    ];
    let stats = calculate_statistics(&documents);
    assert_eq!(stats.total_documents, 5);
    assert_eq!(stats.total_patients, 5);
    assert_eq!(stats.age_sum, 85);
    assert_eq!(stats.age_count, 3);
    assert_eq!(
        stats.gender_distribution,
        vec![
            GenderCount { gender: "F".to_string(), count: 2 },
            GenderCount { gender: "Unknown".to_string(), count: 2 },
            GenderCount { gender: "M".to_string(), count: 1 },
        ]
    );
    assert_eq!(
        stats.top_diagnoses,
        vec![
            DiagnosisCount { name: "Asma".to_string(), count: 3 },
            DiagnosisCount { name: "Diabetes".to_string(), count: 2 },
            DiagnosisCount { name: "Gota".to_string(), count: 1 },
            DiagnosisCount { name: "A".to_string(), count: 1 },
            DiagnosisCount { name: "B".to_string(), count: 1 },
        ]
    );
    assert_eq!(
        stats.top_medications,
        vec![
            MedicationCount { name: "Metformina".to_string(), count: 3 },
            MedicationCount { name: "Enalapril".to_string(), count: 1 },
        ]
    );
    assert_eq!(stats.processing_time_ms, 0);
}

#[test]
fn the_sum_of_ages_wraps_like_the_counters() {
    let documents = vec![
        document(None, Some(u32::MAX), &[], &[]),
        document(None, Some(7), &[], &[]),
    ];
    let stats = calculate_statistics(&documents);
    assert_eq!(stats.age_sum, 6);
    assert_eq!(stats.age_count, 2);
}

#[test]
fn no_documents_give_zeros_and_empty_lists() {
    let stats = calculate_statistics(&Vec::new());
    assert_eq!(stats.total_documents, 0);
    assert_eq!(stats.age_sum, 0);
    assert_eq!(stats.age_count, 0);
    assert!(stats.gender_distribution.is_empty());
    assert!(stats.top_diagnoses.is_empty());
    assert!(stats.top_medications.is_empty());
}
