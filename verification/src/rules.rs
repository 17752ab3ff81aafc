//! What an attribute or a piece of text adds to the document under
//! construction, given the element it belongs to and the elements around it.

use crate::mining::add_medication;
use crate::mining::extract_diagnoses_from_title;
use crate::mining::extract_from_text;
use crate::mining::mined;
use crate::mining::titled;
use crate::mining::with_medication;
use crate::model::lemma_deep_view_push;
use crate::model::CDADocument;
use crate::model::Diagnosis;
use crate::model::DiagnosisView;
use crate::model::DocumentView;
use crate::model::PatientView;
use crate::patterns::MedicationPatterns;
use crate::tables::lookup;
use crate::tables::medication_name_entries;
use crate::tables::medication_names;
use crate::tables::Entry;
use crate::text::chars_contain;
use crate::text::chars_of;
use crate::text::eq_ignore_ascii_case;
use crate::text::has_text;
use crate::text::is_substring;
use crate::text::leading_year;
use crate::text::lowercase;
use crate::text::parse_leading_year;
use crate::text::same_ignoring_ascii_case;
use crate::text::same_text;
use crate::text::to_lower;
use crate::text::trim;
use crate::text::trimmed;
use crate::xml::AttributeView;
use crate::xml::XmlAttribute;
use vstd::prelude::*;
use vstd::string::StringExecFns;

verus! {

/// The year against which ages are reckoned.
pub const REFERENCE_YEAR: u32 = 2024;

/// The oldest age that is taken for one.
pub const MAX_AGE: u32 = 150;

/// `M` for `m` and `male`, `F` for `f` and `female`, in any letter case;
/// `Unknown` for every other code.
pub open spec fn normalized_gender(code: Seq<char>) -> Seq<char> {
    if same_ignoring_ascii_case(code, "M"@) || same_ignoring_ascii_case(code, "MALE"@) {
        "M"@
    } else if same_ignoring_ascii_case(code, "F"@) || same_ignoring_ascii_case(code, "FEMALE"@) {
        "F"@
    } else {
        "Unknown"@
    }
}

/// The gender that a code stands for.
pub fn normalize_gender(code: &str) -> (r: String)
    ensures
        r@ == normalized_gender(code@),
{
    let chars = chars_of(code);
    if eq_ignore_ascii_case(&chars, "M") || eq_ignore_ascii_case(&chars, "MALE") {
        "M".to_owned()
    } else if eq_ignore_ascii_case(&chars, "F") || eq_ignore_ascii_case(&chars, "FEMALE") {
        "F".to_owned()
    } else {
        "Unknown".to_owned()
    }
}

/// The age in `year` of someone born on `date`: the year less the year that
/// the first four characters of the date spell, where that is between 0 and
/// `MAX_AGE`.
pub open spec fn age_in(date: Seq<char>, year: int) -> Option<u32> {
    match leading_year(date) {
        Some(born) => if 0 <= year - born <= MAX_AGE {
            Some((year - born) as u32)
        } else {
            None
        },
        None => None,
    }
}

/// The age in `year` of someone born on `date`, a date that starts with the
/// four digits of the year.
pub fn age_in_year(date: &str, year: u32) -> (r: Option<u32>)
    ensures
        r == age_in(date@, year as int),
{
    match parse_leading_year(date) {
        Some(born) => if born <= year && year - born <= MAX_AGE {
            Some(year - born)
        } else {
            None
        },
        None => None,
    }
}

/// The age in the reference year of someone born on `date`.
pub fn calculate_age_from_hl7_date(date: &str) -> (r: Option<u32>)
    ensures
        r == age_in(date@, REFERENCE_YEAR as int),
{
    age_in_year(date, REFERENCE_YEAR)
}

/// Whether the name of an element says that it holds a diagnosis.
pub open spec fn names_diagnosis(element: Seq<char>) -> bool {
    ||| is_substring("observation"@, element)
    ||| is_substring("diagnosis"@, element)
    ||| is_substring("condition"@, element)
    ||| is_substring("problem"@, element)
}

/// Whether one of the elements of `path` holds diagnoses.
pub open spec fn in_diagnosis_context(path: Seq<Seq<char>>) -> bool {
    exists|i: int| 0 <= i < path.len() && names_diagnosis(#[trigger] path[i])
}

/// Whether one of the elements of `path` holds diagnoses.
pub fn is_diagnosis_context(path: &Vec<String>) -> (r: bool)
    ensures
        r == in_diagnosis_context(path.deep_view()),
{
    let observation = chars_of("observation");
    let diagnosis = chars_of("diagnosis");
    let condition = chars_of("condition");
    let problem = chars_of("problem");
    let n = path.len();
    let mut i: usize = 0;
    while i < n
        invariant
            i <= n,
            n == path@.len(),
            observation@ == "observation"@,
            diagnosis@ == "diagnosis"@,
            condition@ == "condition"@,
            problem@ == "problem"@,
            forall|k: int| 0 <= k < i ==> !names_diagnosis(#[trigger] path.deep_view()[k]),
        decreases n - i,
    {
        let element = chars_of(path[i].as_str());
        assert(path.deep_view()[i as int] == element@);
        if chars_contain(&element, &observation) || chars_contain(&element, &diagnosis)
            || chars_contain(&element, &condition) || chars_contain(&element, &problem) {
            return true;
        }
        i += 1;
    }
    false
}

/// The name under which a medication is recorded: that of the table for a
/// known spelling, letter case and surrounding white space aside, and
/// otherwise the name as written, without surrounding white space.
pub open spec fn normalized_medication_name(name: Seq<char>) -> Seq<char> {
    match lookup(medication_names(), trimmed(to_lower(name))) {
        Some(known) => known,
        None => trimmed(name),
    }
}

/// The value of the first row whose key is `key`.
pub fn find_value(rows: &Vec<Entry>, key: &str) -> (r: Option<&'static str>)
    ensures
        r.deep_view() == lookup(rows.deep_view(), key@),
{
    let ghost all = rows.deep_view();
    let n = rows.len();
    let mut i: usize = 0;
    assert(all.skip(0) =~= all);
    while i < n
        invariant
            i <= n,
            n == rows@.len(),
            all == rows.deep_view(),
            lookup(all, key@) == lookup(all.skip(i as int), key@),
        decreases n - i,
    {
        let ghost rest = all.skip(i as int);
        assert(rest[0] == rows@[i as int]@);
        assert(rest.drop_first() =~= all.skip(i + 1));
        if same_text(rows[i].key, key) {
            return Some(rows[i].value);
        }
        i += 1;
    }
    None
}

/// The name under which a medication is recorded.
pub fn normalize_medication_name(name: &str) -> (r: String)
    ensures
        r@ == normalized_medication_name(name@),
{
    let lower = lowercase(name);
    let key = trim(lower.as_str());
    let rows = medication_name_entries();
    match find_value(&rows, key) {
        Some(known) => known.to_owned(),
        None => trim(name).to_owned(),
    }
}

/// `doc` after an attribute `key`, in lower case, with value `value` was seen
/// on an element `tag`, the innermost of `path`.
pub open spec fn attribute_applied(
    doc: DocumentView,
    tag: Seq<char>,
    key: Seq<char>,
    value: Seq<char>,
    path: Seq<Seq<char>>,
) -> DocumentView {
    if tag == "administrativegendercode"@ && key == "code"@ {
        DocumentView {
            patient: PatientView { gender: Some(normalized_gender(value)), ..doc.patient },
            ..doc
        }
    } else if tag == "birthtime"@ && key == "value"@ {
        DocumentView {
            patient: PatientView {
                birth_date: Some(value),
                age: age_in(value, REFERENCE_YEAR as int),
                ..doc.patient
            },
            ..doc
        }
    } else if tag == "effectivetime"@ && key == "value"@ && path.len() <= 3 {
        DocumentView { document_date: Some(value), ..doc }
    } else if tag == "code"@ && key == "displayname"@ {
        if in_diagnosis_context(path) {
            DocumentView {
                diagnoses: doc.diagnoses.push(
                    DiagnosisView { code: None, name: value, code_system: None },
                ),
                ..doc
            }
        } else {
            doc
        }
    } else if tag == "code"@ && key == "code"@ {
        if in_diagnosis_context(path) && doc.diagnoses.len() > 0 {
            DocumentView {
                diagnoses: doc.diagnoses.update(
                    doc.diagnoses.len() - 1,
                    DiagnosisView { code: Some(value), ..doc.diagnoses.last() },
                ),
                ..doc
            }
        } else {
            doc
        }
    } else if tag == "id"@ && key == "extension"@ && path.contains("patient"@) {
        DocumentView { patient: PatientView { id: Some(value), ..doc.patient }, ..doc }
    } else {
        doc
    }
}

/// `doc` after the attributes of an element `tag` were seen one after the
/// other, each under its name in lower case.
pub open spec fn attributes_applied(
    doc: DocumentView,
    tag: Seq<char>,
    attributes: Seq<AttributeView>,
    path: Seq<Seq<char>>,
) -> DocumentView
    decreases attributes.len(),
{
    if attributes.len() == 0 {
        doc
    } else {
        attribute_applied(
            attributes_applied(doc, tag, attributes.drop_last(), path),
            tag,
            to_lower(attributes.last().key),
            attributes.last().value,
            path,
        )
    }
}

/// Records what one attribute says. `key` is the attribute's name in lower
/// case.
pub fn apply_attribute(
    doc: &mut CDADocument,
    tag: &str,
    key: &str,
    value: &str,
    path: &Vec<String>,
)
    ensures
        final(doc)@ == attribute_applied(old(doc)@, tag@, key@, value@, path.deep_view()),
{
    if same_text(tag, "administrativegendercode") && same_text(key, "code") {
        doc.patient.gender = Some(normalize_gender(value));
    } else if same_text(tag, "birthtime") && same_text(key, "value") {
        doc.patient.birth_date = Some(value.to_owned());
        doc.patient.age = calculate_age_from_hl7_date(value);
    } else if same_text(tag, "effectivetime") && same_text(key, "value") && path.len() <= 3 {
        doc.document_date = Some(value.to_owned());
    } else if same_text(tag, "code") && same_text(key, "displayname") {
        if is_diagnosis_context(path) {
            let ghost before = doc.diagnoses;
            let item = Diagnosis { code: None, name: value.to_owned(), code_system: None };
            doc.diagnoses.push(item);
            proof {
                lemma_deep_view_push(before, doc.diagnoses, item);
            }
        }
    } else if same_text(tag, "code") && same_text(key, "code") {
        if is_diagnosis_context(path) && doc.diagnoses.len() > 0 {
            let ghost before = doc.diagnoses.deep_view();
            let mut last = doc.diagnoses.pop().unwrap();
            last.code = Some(value.to_owned());
            let ghost changed = last@;
            doc.diagnoses.push(last);
            assert(doc.diagnoses.deep_view() =~= before.update(before.len() - 1, changed));
        }
    } else if same_text(tag, "id") && same_text(key, "extension") && has_text(path, "patient") {
        doc.patient.id = Some(value.to_owned());
    }
}

/// Records what the attributes of an element `tag` say, in the order of the
/// text. `path` is the path down to `tag`, `tag` included.
pub fn extract_attributes(
    doc: &mut CDADocument,
    tag: &str,
    attributes: &Vec<XmlAttribute>,
    path: &Vec<String>,
)
    ensures
        final(doc)@ == attributes_applied(
            old(doc)@,
            tag@,
            attributes.deep_view(),
            path.deep_view(),
        ),
{
    let ghost all = attributes.deep_view();
    let n = attributes.len();
    let mut i: usize = 0;
    assert(all.take(0) =~= Seq::empty());
    while i < n
        invariant
            i <= n,
            n == attributes@.len(),
            all == attributes.deep_view(),
            doc@ == attributes_applied(old(doc)@, tag@, all.take(i as int), path.deep_view()),
        decreases n - i,
    {
        proof {
            assert(all.take(i + 1).drop_last() =~= all.take(i as int));
            assert(all.take(i + 1).last() == attributes@[i as int]@);
        }
        let key = lowercase(attributes[i].key.as_str());
        apply_attribute(doc, tag, key.as_str(), attributes[i].value.as_str(), path);
        i += 1;
    }
    assert(all.take(n as int) =~= all);
}

/// The name of the patient so far, or the empty text.
pub open spec fn name_so_far(doc: DocumentView) -> Seq<char> {
    match doc.patient.name {
        Some(name) => name,
        None => Seq::empty(),
    }
}

/// `doc` after the text `text` of an element `tag` was seen, with `path` the
/// path down to `tag`, `tag` included.
pub open spec fn text_applied(
    doc: DocumentView,
    tag: Seq<char>,
    text: Seq<char>,
    path: Seq<Seq<char>>,
    patterns: Seq<Seq<char>>,
) -> DocumentView {
    if (tag == "given"@ || tag == "family"@) && path.contains("patient"@) {
        DocumentView {
            patient: PatientView {
                name: Some(trimmed(name_so_far(doc) + seq![' '] + text)),
                ..doc.patient
            },
            ..doc
        }
    } else if tag == "name"@ && path.contains("assignedperson"@) {
        DocumentView { author: Some(text), ..doc }
    } else if tag == "name"@ && (path.contains("manufacturedmaterial"@) || path.contains(
        "medication"@,
    )) {
        if normalized_medication_name(text).len() > 0 {
            DocumentView {
                medications: with_medication(
                    doc.medications,
                    normalized_medication_name(text),
                    "structured"@,
                ),
                ..doc
            }
        } else {
            doc
        }
    } else if tag == "title"@ {
        mined(titled(doc, text), text, patterns)
    } else if tag == "text"@ {
        mined(doc, text, patterns)
    } else {
        doc
    }
}

/// Records what the text of an element says.
pub fn process_text_content(
    doc: &mut CDADocument,
    tag: &str,
    text: &str,
    path: &Vec<String>,
    patterns: &MedicationPatterns,
)
    ensures
        final(doc)@ == text_applied(old(doc)@, tag@, text@, path.deep_view(), patterns@),
{
    if (same_text(tag, "given") || same_text(tag, "family")) && has_text(path, "patient") {
        let mut joined = match &doc.patient.name {
            Some(name) => name.clone(),
            None => String::new(),
        };
        proof {
            reveal_strlit(" ");
            assert(" "@ =~= seq![' ']);
        }
        joined.append(" ");
        joined.append(text);
        doc.patient.name = Some(trim(joined.as_str()).to_owned());
    } else if same_text(tag, "name") && has_text(path, "assignedperson") {
        doc.author = Some(text.to_owned());
    } else if same_text(tag, "name") && (has_text(path, "manufacturedmaterial") || has_text(
        path,
        "medication",
    )) {
        let name = normalize_medication_name(text);
        if !name.as_str().is_empty() {
            add_medication(&mut doc.medications, name.as_str(), "structured");
        }
    } else if same_text(tag, "title") {
        extract_diagnoses_from_title(doc, text);
        extract_from_text(doc, text, patterns);
    } else if same_text(tag, "text") {
        extract_from_text(doc, text, patterns);
    }
}

} // verus!
