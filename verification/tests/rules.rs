use cda_parser::mining::add_text_medications;
use cda_parser::mining::extract_diagnoses_from_title;
use cda_parser::mining::extract_from_text;
use cda_parser::mining::infer_diagnoses_from_medications;
use cda_parser::mining::is_duplicate_diagnosis;
use cda_parser::mining::is_duplicate_medication;
use cda_parser::patterns::MedicationPatterns;
use cda_parser::rules::age_in_year;
use cda_parser::rules::apply_attribute;
use cda_parser::rules::calculate_age_from_hl7_date;
use cda_parser::rules::extract_attributes;
use cda_parser::rules::is_diagnosis_context;
use cda_parser::rules::normalize_gender;
use cda_parser::rules::normalize_medication_name;
use cda_parser::rules::process_text_content;
use cda_parser::xml::XmlAttribute;
use cda_parser::CDADocument;
use cda_parser::Diagnosis;
use cda_parser::Medication;

fn path(names: &[&str]) -> Vec<String> {
    names.iter().map(|n| n.to_string()).collect()
}

fn names_of_diagnoses(doc: &CDADocument) -> Vec<&str> {
    doc.diagnoses.iter().map(|d| d.name.as_str()).collect()
}

fn names_of_medications(doc: &CDADocument) -> Vec<&str> {
    doc.medications.iter().map(|m| m.name.as_str()).collect()
}

fn attribute(key: &str, value: &str) -> XmlAttribute {
    XmlAttribute { key: key.to_string(), value: value.to_string() }
}

#[test]
fn age_is_the_reference_year_less_the_year_of_birth() {
    assert_eq!(calculate_age_from_hl7_date("19800101"), Some(44));
    assert_eq!(calculate_age_from_hl7_date("19900315"), Some(34));
    assert_eq!(calculate_age_from_hl7_date("20240101"), Some(0));
    assert_eq!(calculate_age_from_hl7_date("18740101"), Some(150));
    assert_eq!(calculate_age_from_hl7_date("1980"), Some(44));
    assert_eq!(calculate_age_from_hl7_date("1980-01-01T10:00"), Some(44));
}

#[test]
fn age_is_unset_outside_the_range_or_without_a_year() {
    assert_eq!(calculate_age_from_hl7_date("18730101"), None);
    assert_eq!(calculate_age_from_hl7_date("20250101"), None);
    assert_eq!(calculate_age_from_hl7_date("99990101"), None);
    assert_eq!(calculate_age_from_hl7_date("abcd0101"), None);
    assert_eq!(calculate_age_from_hl7_date("198"), None);
    assert_eq!(calculate_age_from_hl7_date(""), None);
    assert_eq!(calculate_age_from_hl7_date("-1980101"), None);
}

#[test]
fn age_can_be_reckoned_against_another_year() {
    assert_eq!(age_in_year("19800101", 2000), Some(20));
    assert_eq!(age_in_year("19800101", 1979), None);
    assert_eq!(age_in_year("19800101", 2131), None);
    assert_eq!(age_in_year("19800101", 2130), Some(150));
}

#[test]
fn gender_codes_are_normalized() {
    for code in ["M", "MALE", "m", "male", "Male", "mAlE"] {
        assert_eq!(normalize_gender(code), "M", "{:?}", code);
    }
    for code in ["F", "FEMALE", "f", "female", "Female"] {
        assert_eq!(normalize_gender(code), "F", "{:?}", code);
    }
    for code in ["", " ", "X", "UN", "Unknown", "MF", "M ", " F", "hombre", "ＭALE", "1"] {
        assert_eq!(normalize_gender(code), "Unknown", "{:?}", code);
    }
}

#[test]
fn gender_normalization_is_idempotent() {
    for code in ["M", "male", "F", "Female", "", "other", "Unknown"] {
        let once = normalize_gender(code);
        assert_eq!(normalize_gender(&once), once);
    }
}

#[test]
fn gender_is_what_upper_casing_the_code_gives() {
    let reference = |code: &str| match code.to_uppercase().as_str() {
        "M" | "MALE" => "M",
        "F" | "FEMALE" => "F",
        _ => "Unknown",
    };
    let mut code: u32 = 0;
    while code <= 0x10ffff {
        if let Some(c) = char::from_u32(code) {
            let alone = c.to_string();
            assert_eq!(normalize_gender(&alone), reference(&alone), "U+{:04X}", code);
            for (before, after) in [("", "ALE"), ("M", "LE"), ("MA", "E"), ("MAL", ""), ("", "EMALE"), ("F", "MALE"), ("FE", "ALE"), ("FEM", "LE"), ("FEMA", "E"), ("FEMAL", ""), ("", "MALE"), ("", "LE"), ("", "E"), ("", "ALE")] {
                let word = format!("{}{}{}", before, c, after);
                assert_eq!(normalize_gender(&word), reference(&word), "{:?}", word);
            }
        }
        code += 1;
    }
}

#[test]
fn medication_names_are_normalized_by_the_table() {
    assert_eq!(normalize_medication_name("metformin"), "Metformina");
    assert_eq!(normalize_medication_name("  METFORMINA "), "Metformina");
    assert_eq!(normalize_medication_name("Enalapril"), "Enalapril");
    assert_eq!(normalize_medication_name("atorvastatin"), "Atorvastatina");
    assert_eq!(normalize_medication_name("Atorvastatina"), "Atorvastatina");
    assert_eq!(normalize_medication_name("SALBUTAMOL"), "Salbutamol");
    assert_eq!(normalize_medication_name("budesonide"), "Budesonida");
    assert_eq!(normalize_medication_name("Budesonida"), "Budesonida");
    assert_eq!(normalize_medication_name("Warfarin"), "Warfarina");
    assert_eq!(normalize_medication_name("warfarina"), "Warfarina");
}

#[test]
fn unknown_medication_names_pass_through_trimmed() {
    assert_eq!(normalize_medication_name("  Ácido Fólico  "), "Ácido Fólico");
    assert_eq!(normalize_medication_name("metformina 850"), "metformina 850");
    assert_eq!(normalize_medication_name("   "), "");
}

#[test]
fn diagnosis_context_is_an_element_that_names_one() {
    assert!(is_diagnosis_context(&path(&["clinicaldocument", "observation", "code"])));
    assert!(is_diagnosis_context(&path(&["problemlist"])));
    assert!(is_diagnosis_context(&path(&["a", "maindiagnosisentry", "b"])));
    assert!(is_diagnosis_context(&path(&["preconditions"])));
    assert!(!is_diagnosis_context(&path(&["clinicaldocument", "code"])));
    assert!(!is_diagnosis_context(&path(&[])));
}

#[test]
fn gender_attribute_sets_the_normalized_gender() {
    let mut doc = CDADocument::new("a.xml");
    apply_attribute(&mut doc, "administrativegendercode", "code", "f", &path(&["administrativegendercode"]));
    assert_eq!(doc.patient.gender.as_deref(), Some("F"));
    apply_attribute(&mut doc, "administrativegendercode", "code", "UN", &path(&["administrativegendercode"]));
    assert_eq!(doc.patient.gender.as_deref(), Some("Unknown"));
}

#[test]
fn birth_time_sets_the_date_and_the_age() {
    let mut doc = CDADocument::new("a.xml");
    apply_attribute(&mut doc, "birthtime", "value", "19800101", &path(&["birthtime"]));
    assert_eq!(doc.patient.birth_date.as_deref(), Some("19800101"));
    assert_eq!(doc.patient.age, Some(44));
    apply_attribute(&mut doc, "birthtime", "value", "unknown", &path(&["birthtime"]));
    assert_eq!(doc.patient.birth_date.as_deref(), Some("unknown"));
    assert_eq!(doc.patient.age, None);
}

#[test]
fn effective_time_counts_near_the_root_only() {
    let mut doc = CDADocument::new("a.xml");
    apply_attribute(&mut doc, "effectivetime", "value", "20240105", &path(&["a", "b", "c", "effectivetime"]));
    assert_eq!(doc.document_date, None);
    apply_attribute(&mut doc, "effectivetime", "value", "20240105", &path(&["a", "b", "effectivetime"]));
    assert_eq!(doc.document_date.as_deref(), Some("20240105"));
}

#[test]
fn display_name_then_code_make_one_coded_diagnosis() {
    let mut doc = CDADocument::new("a.xml");
    let here = path(&["entry", "observation", "code"]);
    extract_attributes(
        &mut doc,
        "code",
        &vec![attribute("displayName", "Asma"), attribute("code", "J45")],
        &here,
    );
    assert_eq!(
        doc.diagnoses,
        vec![Diagnosis { code: Some("J45".to_string()), name: "Asma".to_string(), code_system: None }]
    );
}

#[test]
fn code_before_display_name_is_lost() {
    let mut doc = CDADocument::new("a.xml");
    let here = path(&["entry", "observation", "code"]);
    extract_attributes(
        &mut doc,
        "code",
        &vec![attribute("code", "J45"), attribute("displayName", "Asma")],
        &here,
    );
    assert_eq!(
        doc.diagnoses,
        vec![Diagnosis { code: None, name: "Asma".to_string(), code_system: None }]
    );
}

#[test]
fn code_attributes_outside_a_diagnosis_are_ignored() {
    let mut doc = CDADocument::new("a.xml");
    let here = path(&["clinicaldocument", "code"]);
    extract_attributes(
        &mut doc,
        "code",
        &vec![attribute("displayName", "Informe"), attribute("code", "11488-4")],
        &here,
    );
    assert!(doc.diagnoses.is_empty());
}

#[test]
fn structured_diagnoses_are_not_checked_for_duplicates() {
    let mut doc = CDADocument::new("a.xml");
    let here = path(&["observation", "code"]);
    apply_attribute(&mut doc, "code", "displayname", "Asma", &here);
    apply_attribute(&mut doc, "code", "displayname", "Asma", &here);
    assert_eq!(names_of_diagnoses(&doc), vec!["Asma", "Asma"]);
}

#[test]
fn patient_id_needs_a_patient_element_around_it() {
    let mut doc = CDADocument::new("a.xml");
    apply_attribute(&mut doc, "id", "extension", "123", &path(&["recordtarget", "patientrole", "id"]));
    assert_eq!(doc.patient.id, None);
    apply_attribute(&mut doc, "id", "extension", "123", &path(&["patientrole", "patient", "id"]));
    assert_eq!(doc.patient.id.as_deref(), Some("123"));
}

#[test]
fn attribute_names_are_matched_in_lower_case() {
    let mut doc = CDADocument::new("a.xml");
    extract_attributes(&mut doc, "birthtime", &vec![attribute("VALUE", "20000101")], &path(&["birthtime"]));
    assert_eq!(doc.patient.age, Some(24));
}

#[test]
fn unmatched_attributes_change_nothing() {
    let mut doc = CDADocument::new("a.xml");
    extract_attributes(
        &mut doc,
        "section",
        &vec![attribute("code", "M"), attribute("value", "19800101")],
        &path(&["section"]),
    );
    assert_eq!(doc, CDADocument::new("a.xml"));
}

#[test]
fn given_and_family_names_are_joined() {
    let patterns = MedicationPatterns::new();
    let mut doc = CDADocument::new("a.xml");
    let here = path(&["patient", "name", "given"]);
    process_text_content(&mut doc, "given", "Ana", &here, &patterns);
    assert_eq!(doc.patient.name.as_deref(), Some("Ana"));
    process_text_content(&mut doc, "family", "Pérez", &path(&["patient", "name", "family"]), &patterns);
    assert_eq!(doc.patient.name.as_deref(), Some("Ana Pérez"));
    process_text_content(&mut doc, "given", "Luis", &path(&["author", "name", "given"]), &patterns);
    assert_eq!(doc.patient.name.as_deref(), Some("Ana Pérez"));
}

#[test]
fn the_name_of_an_assigned_person_is_the_author() {
    let patterns = MedicationPatterns::new();
    let mut doc = CDADocument::new("a.xml");
    process_text_content(&mut doc, "name", "Dra. Ruiz", &path(&["author", "assignedperson", "name"]), &patterns);
    assert_eq!(doc.author.as_deref(), Some("Dra. Ruiz"));
    assert!(doc.medications.is_empty());
}

#[test]
fn the_name_of_a_material_is_a_structured_medication() {
    let patterns = MedicationPatterns::new();
    let mut doc = CDADocument::new("a.xml");
    let here = path(&["manufacturedproduct", "manufacturedmaterial", "name"]);
    process_text_content(&mut doc, "name", "metformin", &here, &patterns);
    process_text_content(&mut doc, "name", "METFORMINA", &here, &patterns);
    process_text_content(&mut doc, "name", "Ácido fólico", &path(&["medication", "name"]), &patterns);
    assert_eq!(
        doc.medications,
        vec![
            Medication { name: "Metformina".to_string(), medication_type: "structured".to_string() },
            Medication { name: "Ácido fólico".to_string(), medication_type: "structured".to_string() },
        ]
    );
}

#[test]
fn adding_a_name_in_another_letter_case_adds_nothing() {
    let patterns = MedicationPatterns::new();
    let mut doc = CDADocument::new("a.xml");
    let here = path(&["medication", "name"]);
    process_text_content(&mut doc, "name", "Aspirin", &here, &patterns);
    process_text_content(&mut doc, "name", "aspirin", &here, &patterns);
    assert_eq!(names_of_medications(&doc), vec!["Aspirin"]);
    assert!(is_duplicate_medication(&doc, "ASPIRIN"));
    assert!(!is_duplicate_medication(&doc, "Aspirina"));
}

#[test]
fn other_elements_have_no_text_rule() {
    let patterns = MedicationPatterns::new();
    let mut doc = CDADocument::new("a.xml");
    process_text_content(&mut doc, "name", "Hospital", &path(&["organization", "name"]), &patterns);
    process_text_content(&mut doc, "paragraph", "paciente con diabetes", &path(&["paragraph"]), &patterns);
    assert_eq!(doc, CDADocument::new("a.xml"));
}

#[test]
fn title_words_stand_for_diagnoses() {
    let mut doc = CDADocument::new("a.xml");
    extract_diagnoses_from_title(&mut doc, "Paciente DIABÉTICO Hipertenso");
    assert_eq!(
        doc.diagnoses,
        vec![
            Diagnosis { code: None, name: "Hipertensión".to_string(), code_system: Some("title_inferred".to_string()) },
            Diagnosis { code: None, name: "Diabetes".to_string(), code_system: Some("title_inferred".to_string()) },
        ]
    );
    extract_diagnoses_from_title(&mut doc, "paciente hipertenso");
    assert_eq!(doc.diagnoses.len(), 2);
}

#[test]
fn every_title_row_can_fire() {
    let mut doc = CDADocument::new("a.xml");
    extract_diagnoses_from_title(
        &mut doc,
        "hipercolesterolemia, asma, múltiples condiciones, control anticoagulación",
    );
    assert_eq!(
        names_of_diagnoses(&doc),
        vec!["Hipercolesterolemia", "Asma", "Múltiples patologías", "Trastorno de coagulación", "Anticoagulación"]
    );
}

#[test]
fn a_title_is_mapped_and_mined() {
    let patterns = MedicationPatterns::new();
    let mut doc = CDADocument::new("a.xml");
    process_text_content(&mut doc, "title", "Paciente diabético hipertenso", &path(&["title"]), &patterns);
    assert_eq!(names_of_diagnoses(&doc), vec!["Hipertensión", "Diabetes", "diabético", "hipertenso"]);
    assert_eq!(doc.diagnoses[2].code_system.as_deref(), Some("text_extracted"));
}

#[test]
fn free_text_is_mined_without_the_title_table() {
    let patterns = MedicationPatterns::new();
    let mut doc = CDADocument::new("a.xml");
    process_text_content(&mut doc, "text", "Paciente hipertenso, estable", &path(&["section", "text"]), &patterns);
    assert_eq!(names_of_diagnoses(&doc), vec!["hipertenso", "estable"]);
}

#[test]
fn keywords_are_found_in_any_letter_case() {
    let patterns = MedicationPatterns::new();
    let mut doc = CDADocument::new("a.xml");
    extract_from_text(&mut doc, "DIABETES y ASMA; estado CRÓNICO", &patterns);
    assert_eq!(names_of_diagnoses(&doc), vec!["diabetes", "asma", "crónico"]);
    assert!(doc.diagnoses.iter().all(|d| d.code_system.as_deref() == Some("text_extracted") && d.code.is_none()));
    assert!(is_duplicate_diagnosis(&doc, "Asma"));
}

#[test]
fn medication_mentions_are_found_by_the_three_patterns() {
    let patterns = MedicationPatterns::new();
    assert_eq!(patterns.len(), 3);
    let mut doc = CDADocument::new("a.xml");
    extract_from_text(&mut doc, "Se indica Amoxicillin y Losartan; ibuprofen 400 mg cada 8 h", &patterns);
    assert_eq!(
        doc.medications,
        vec![
            Medication { name: "amoxicillin".to_string(), medication_type: "text_extracted".to_string() },
            Medication { name: "losartan".to_string(), medication_type: "text_extracted".to_string() },
            Medication { name: "400 mg".to_string(), medication_type: "text_extracted".to_string() },
            Medication { name: "ibuprofen".to_string(), medication_type: "text_extracted".to_string() },
        ]
    );
}

#[test]
fn each_pattern_matches_what_it_is_for() {
    let patterns = MedicationPatterns::new();
    assert_eq!(patterns.matches_of(0, "omeprazole y enalapril"), vec!["omeprazole", "enalapril"]);
    assert_eq!(patterns.matches_of(1, "toma 2 tablet y 5mg"), vec!["2 tablet", "5mg"]);
    assert_eq!(patterns.matches_of(2, "aspirin, paracetamol; warfarina"), vec!["aspirin", "paracetamol"]);
    assert_eq!(patterns.matches_of(2, "nada"), Vec::<String>::new());
}

#[test]
fn short_mentions_and_known_names_are_left_out() {
    let mut list = vec![Medication { name: "Enalapril".to_string(), medication_type: "structured".to_string() }];
    add_text_medications(
        &mut list,
        &vec!["5mg".to_string(), "enalapril".to_string(), "ñmg".to_string(), "10mg".to_string(), "10MG".to_string()],
    );
    let names: Vec<&str> = list.iter().map(|m| m.name.as_str()).collect();
    assert_eq!(names, vec!["Enalapril", "10mg"]);
    assert_eq!(list[1].medication_type, "text_extracted");
}

#[test]
fn diagnoses_are_inferred_from_medications() {
    let mut doc = CDADocument::new("a.xml");
    for name in ["Metformina", "enalapril 10 mg", "Salbutamol", "Budesonida", "warfarina"] {
        doc.medications.push(Medication { name: name.to_string(), medication_type: "structured".to_string() });
    }
    infer_diagnoses_from_medications(&mut doc);
    assert_eq!(
        names_of_diagnoses(&doc),
        vec!["Diabetes mellitus tipo 2", "Hipertensión arterial", "Asma bronquial", "Trastorno de coagulación"]
    );
    assert!(doc.diagnoses.iter().all(|d| d.code_system.as_deref() == Some("medication_inferred")));
}
