use cda_parser::patterns::MedicationPatterns;
use cda_parser::walker::parse_cda_document;
use cda_parser::walker::parse_events;
use cda_parser::walker::process_event;
use cda_parser::walker::ParseState;
use cda_parser::xml::XmlAttribute;
use cda_parser::xml::XmlEvent;
use cda_parser::CDADocument;
use cda_parser::CDAParser;
use cda_parser::Diagnosis;
use cda_parser::Medication;

const FULL: &str = r#"<?xml version="1.0" encoding="UTF-8"?>
<ClinicalDocument xmlns="urn:hl7-org:v3">
  <!-- informe de control -->
  <title>Paciente diabético hipertenso</title>
  <effectiveTime value="20240115"/>
  <recordTarget>
    <patientRole>
      <id extension="ignored"/>
      <patient>
        <id extension="P-001"/>
        <name>
          <given>Ana</given>
          <family>Pérez</family>
        </name>
        <administrativeGenderCode code="F"/>
        <birthTime value="19900315"/>
      </patient>
    </patientRole>
  </recordTarget>
  <author>
    <assignedAuthor>
      <assignedPerson>
        <name>Dra. Ruiz</name>
      </assignedPerson>
    </assignedAuthor>
  </author>
  <component>
    <section>
      <entry>
        <substanceAdministration>
          <effectiveTime value="20240101"/>
          <consumable>
            <manufacturedProduct>
              <manufacturedMaterial>
                <name>Metformina</name>
              </manufacturedMaterial>
            </manufacturedProduct>
          </consumable>
        </substanceAdministration>
      </entry>
    </section>
  </component>
</ClinicalDocument>"#;

fn start(name: &str, attributes: &[(&str, &str)]) -> XmlEvent {
    XmlEvent::Start {
        name: name.to_string(),
        attributes: attributes
            .iter()
            .map(|(k, v)| XmlAttribute { key: k.to_string(), value: v.to_string() })
            .collect(),
    }
}

fn end(name: &str) -> XmlEvent {
    XmlEvent::End { name: name.to_string() }
}

fn text(content: &str) -> XmlEvent {
    XmlEvent::Text { content: content.to_string() }
}

fn diagnosis_names(doc: &CDADocument) -> Vec<&str> {
    doc.diagnoses.iter().map(|d| d.name.as_str()).collect()
}

fn medication_names(doc: &CDADocument) -> Vec<&str> {
    doc.medications.iter().map(|m| m.name.as_str()).collect()
}

fn parse(xml: &str) -> CDADocument {
    parse_cda_document("doc.xml", xml, &MedicationPatterns::new()).unwrap()
}

#[test]
fn a_whole_document_is_extracted() {
    let doc = parse(FULL);
    assert_eq!(doc.file_name, "doc.xml");
    assert_eq!(doc.patient.gender.as_deref(), Some("F"));
    assert_eq!(doc.patient.age, Some(34));
    assert_eq!(doc.patient.birth_date.as_deref(), Some("19900315"));
    assert_eq!(doc.patient.id.as_deref(), Some("P-001"));
    assert_eq!(doc.patient.name.as_deref(), Some("Ana Pérez"));
    assert_eq!(doc.author.as_deref(), Some("Dra. Ruiz"));
    assert_eq!(doc.document_date.as_deref(), Some("20240115"));
    assert_eq!(medication_names(&doc), vec!["Metformina"]);
    assert_eq!(doc.medications[0].medication_type, "structured");
    assert_eq!(diagnosis_names(&doc), vec!["Diabetes", "Hipertensión", "diabético", "hipertenso"]);
    assert_eq!(doc.diagnoses[0].code_system.as_deref(), Some("title_inferred"));
    assert_eq!(doc.diagnoses[1].code_system.as_deref(), Some("title_inferred"));
    assert_eq!(doc.diagnoses[2].code_system.as_deref(), Some("text_extracted"));
}

#[test]
fn title_diagnoses_keep_medications_from_implying_any() {
    let doc = parse(FULL);
    assert!(diagnosis_names(&doc).contains(&"Diabetes"));
    assert!(diagnosis_names(&doc).contains(&"Hipertensión"));
    assert!(!diagnosis_names(&doc).contains(&"Diabetes mellitus tipo 2"));
    assert!(doc.diagnoses.iter().all(|d| d.code_system.as_deref() != Some("medication_inferred")));
}

#[test]
fn a_structured_diagnosis_keeps_medications_from_implying_any() {
    let doc = parse(
        r#"<doc>
             <entry><observation><code displayName="Asma" code="J45"/></observation></entry>
             <medication><name>Enalapril</name></medication>
           </doc>"#,
    );
    assert_eq!(
        doc.diagnoses,
        vec![Diagnosis { code: Some("J45".to_string()), name: "Asma".to_string(), code_system: None }]
    );
    assert_eq!(medication_names(&doc), vec!["Enalapril"]);
}

#[test]
fn medications_imply_diagnoses_where_there_is_none() {
    let doc = parse(
        r#"<doc>
             <medication><name>Enalapril</name></medication>
             <medication><name>metformin</name></medication>
           </doc>"#,
    );
    assert_eq!(medication_names(&doc), vec!["Enalapril", "Metformina"]);
    assert_eq!(diagnosis_names(&doc), vec!["Diabetes mellitus tipo 2", "Hipertensión arterial"]);
    assert!(doc.diagnoses.iter().all(|d| d.code_system.as_deref() == Some("medication_inferred")));
}

#[test]
fn the_same_medication_in_two_letter_cases_is_kept_once() {
    let doc = parse(
        r#"<doc>
             <medication><name>Aspirin</name></medication>
             <medication><name>aspirin</name></medication>
           </doc>"#,
    );
    assert_eq!(
        doc.medications,
        vec![Medication { name: "Aspirin".to_string(), medication_type: "structured".to_string() }]
    );
}

#[test]
fn lists_are_sorted_by_name_and_neighbours_with_one_name_merged() {
    let doc = parse(
        r#"<doc><problem>
             <code displayName="asma"/>
             <code displayName="Zoster"/>
             <code displayName="Asma" code="J45"/>
             <code displayName="ASMA"/>
             <code displayName="Asma" code="J45.9"/>
           </problem></doc>"#,
    );
    assert_eq!(diagnosis_names(&doc), vec!["ASMA", "Zoster", "asma"]);
    let doc = parse(
        r#"<doc><problem>
             <code displayName="Asma" code="first"/>
             <code displayName="ASMA"/>
             <code displayName="Asma" code="second"/>
           </problem></doc>"#,
    );
    assert_eq!(diagnosis_names(&doc), vec!["ASMA"]);
}

#[test]
fn element_and_attribute_names_are_matched_in_any_letter_case() {
    let doc = parse(r#"<DOC><ADMINISTRATIVEGENDERCODE CODE="m"/><BirthTime Value="20000101"/></DOC>"#);
    assert_eq!(doc.patient.gender.as_deref(), Some("M"));
    assert_eq!(doc.patient.age, Some(24));
}

#[test]
fn an_element_without_content_is_one_that_opens_and_closes() {
    let with_content = parse(r#"<doc><birthTime value="19800101"></birthTime></doc>"#);
    let without = parse(r#"<doc><birthTime value="19800101"/></doc>"#);
    assert_eq!(without, with_content);
    assert_eq!(without.patient.age, Some(44));
}

#[test]
fn text_is_gathered_up_to_the_next_closing_element() {
    let doc = parse("<doc><title>Control de <b>asma</b> leve</title></doc>");
    assert_eq!(diagnosis_names(&doc), Vec::<&str>::new());
    let doc = parse("<doc><section>Control de <title>asma</title></section></doc>");
    assert_eq!(diagnosis_names(&doc), vec!["Asma"]);
    assert_eq!(doc.diagnoses[0].code_system.as_deref(), Some("title_inferred"));
}

#[test]
fn entities_are_resolved_and_comments_and_cdata_skipped() {
    let doc = parse(
        "<doc><assignedPerson><name>Ruiz &amp; Cía<!-- nota --></name></assignedPerson>\
         <text><![CDATA[diabetes]]></text></doc>",
    );
    assert_eq!(doc.author.as_deref(), Some("Ruiz & Cía"));
    assert!(doc.diagnoses.is_empty());
}

#[test]
fn an_unknown_entity_leaves_the_text_empty() {
    let doc = parse("<doc><assignedPerson><name>&nada;</name></assignedPerson></doc>");
    assert_eq!(doc.author, None);
}

#[test]
fn the_patient_name_loses_its_extra_white_space() {
    let doc = parse("<doc><patient><given>  Ana \n María </given><family> Pérez\t</family></patient></doc>");
    assert_eq!(doc.patient.name.as_deref(), Some("Ana María Pérez"));
}

#[test]
fn an_empty_text_gives_an_empty_document() {
    assert_eq!(parse(""), CDADocument::new("doc.xml"));
    assert_eq!(parse("   \n "), CDADocument::new("doc.xml"));
}

#[test]
fn malformed_xml_is_an_error() {
    let patterns = MedicationPatterns::new();
    for xml in ["<a><b></a>", "<a", "</a>", "<doc><!-- sin fin </doc>", "<a></b>"] {
        let r = parse_cda_document("bad.xml", xml, &patterns);
        let message = r.expect_err(xml);
        assert!(message.starts_with("Error reading XML: "), "{}", message);
    }
    let message = parse_cda_document("bad.xml", "<a><b></a>", &patterns).unwrap_err();
    assert!(message.contains("EndEventMismatch"), "{}", message);
}

#[test]
fn events_are_taken_one_by_one() {
    let patterns = MedicationPatterns::new();
    let mut state = ParseState::new("a.xml");
    process_event(&mut state, &start("Patient", &[]), &patterns);
    process_event(&mut state, &start("ID", &[("EXTENSION", "77")]), &patterns);
    assert_eq!(state.path, vec!["patient".to_string(), "id".to_string()]);
    assert_eq!(state.document.patient.id.as_deref(), Some("77"));
    process_event(&mut state, &end("ID"), &patterns);
    assert_eq!(state.path, vec!["patient".to_string()]);
    process_event(&mut state, &start("given", &[]), &patterns);
    process_event(&mut state, &text(" Ana"), &patterns);
    process_event(&mut state, &XmlEvent::Other, &patterns);
    process_event(&mut state, &text(" Luisa "), &patterns);
    assert_eq!(state.text, " Ana Luisa ");
    assert_eq!(state.document.patient.name, None);
    process_event(&mut state, &end("given"), &patterns);
    assert_eq!(state.text, "");
    assert_eq!(state.document.patient.name.as_deref(), Some("Ana Luisa"));
    process_event(&mut state, &end("Patient"), &patterns);
    process_event(&mut state, &end("Patient"), &patterns);
    assert!(state.path.is_empty());
}

#[test]
fn blank_text_is_kept_until_there_is_more() {
    let patterns = MedicationPatterns::new();
    let mut state = ParseState::new("a.xml");
    process_event(&mut state, &start("title", &[]), &patterns);
    process_event(&mut state, &text("  "), &patterns);
    process_event(&mut state, &end("title"), &patterns);
    assert_eq!(state.text, "  ");
    assert!(state.document.diagnoses.is_empty());
}

#[test]
fn events_give_the_document_that_the_text_gives() {
    let patterns = MedicationPatterns::new();
    let events = vec![
        start("doc", &[]),
        start("entry", &[]),
        start("observation", &[]),
        start("code", &[("displayName", "Asma"), ("code", "J45")]),
        end("code"),
        end("observation"),
        end("entry"),
        start("medication", &[]),
        start("name", &[]),
        text("Enalapril"),
        end("name"),
        end("medication"),
        end("doc"),
    ];
    let from_events = parse_events("doc.xml", &events, &patterns);
    let from_text = parse(
        r#"<doc><entry><observation><code displayName="Asma" code="J45"/></observation></entry><medication><name>Enalapril</name></medication></doc>"#,
    );
    assert_eq!(from_events, from_text);
}

#[test]
fn a_parsed_file_is_kept() {
    let mut parser = CDAParser::new();
    assert!(parser.get_documents().is_empty());
    assert_eq!(parser.parse_file("a.xml", FULL), Ok("Success".to_string()));
    assert_eq!(parser.parse_file("b.xml", "<doc/>"), Ok("Success".to_string()));
    let names: Vec<&str> = parser.get_documents().iter().map(|d| d.file_name.as_str()).collect();
    assert_eq!(names, vec!["a.xml", "b.xml"]);
    assert_eq!(parser.get_documents()[0], parse_cda_document("a.xml", FULL, &MedicationPatterns::new()).unwrap());
}

#[test]
fn a_file_that_cannot_be_read_is_an_error_and_is_not_kept() {
    let mut parser = CDAParser::new();
    parser.parse_file("a.xml", "<doc/>").unwrap();
    let message = parser.parse_file("bad.xml", "<a><b></a>").unwrap_err();
    assert!(message.starts_with("Error parsing bad.xml: Error reading XML: "), "{}", message);
    assert_eq!(parser.get_documents().len(), 1);
    assert_eq!(parser.get_documents()[0].file_name, "a.xml");
}

#[test]
fn a_batch_leaves_out_the_files_that_cannot_be_read() {
    let mut parser = CDAParser::new();
    parser.parse_file("old.xml", "<doc/>").unwrap();
    let files = vec![
        ("1.xml".to_string(), FULL.to_string()),
        ("2.xml".to_string(), "<a><b></a>".to_string()),
        ("3.xml".to_string(), r#"<doc><administrativeGenderCode code="M"/></doc>"#.to_string()),
        ("4.xml".to_string(), "<doc><birthTime value=\"19800101\"/></doc>".to_string()),
    ];
    let stats = parser.parse_files_batch(&files);
    assert_eq!(stats.total_documents, 3);
    assert_eq!(stats.total_patients, 3);
    let names: Vec<&str> = parser.get_documents().iter().map(|d| d.file_name.as_str()).collect();
    assert_eq!(names, vec!["1.xml", "3.xml", "4.xml"]);
    assert_eq!(stats, parser.get_statistics());
}

#[test]
fn a_batch_of_nothing_empties_the_store() {
    let mut parser = CDAParser::new();
    parser.parse_file("old.xml", "<doc/>").unwrap();
    let stats = parser.parse_files_batch(&Vec::new());
    assert_eq!(stats.total_documents, 0);
    assert!(parser.get_documents().is_empty());
}

#[test]
fn clearing_leaves_nothing_to_count() {
    let mut parser = CDAParser::new();
    parser.parse_file("a.xml", FULL).unwrap();
    parser.clear();
    assert!(parser.get_documents().is_empty());
    let stats = parser.get_statistics();
    assert_eq!(stats.total_documents, 0);
    assert_eq!(stats.total_patients, 0);
    assert_eq!(stats.age_sum, 0);
    assert_eq!(stats.age_count, 0);
    assert!(stats.gender_distribution.is_empty());
    assert!(stats.top_diagnoses.is_empty());
    assert!(stats.top_medications.is_empty());
    assert_eq!(stats.processing_time_ms, 0);
}
