//! The fixed word lists and tables of the extraction rules.

use vstd::prelude::*;

verus! {

/// A table row: the words that are looked for, and the name that they stand
/// for.
pub struct Entry {
    pub key: &'static str,
    pub value: &'static str,
}

/// The view of an [`Entry`].
pub struct EntryView {
    pub key: Seq<char>,
    pub value: Seq<char>,
}

impl View for Entry {
    type V = EntryView;

    open spec fn view(&self) -> EntryView {
        EntryView { key: self.key@, value: self.value@ }
    }
}

impl DeepView for Entry {
    type V = EntryView;

    open spec fn deep_view(&self) -> EntryView {
        self@
    }
}

/// The row of a key and a value.
pub open spec fn row(key: &'static str, value: &'static str) -> EntryView {
    EntryView { key: key@, value: value@ }
}

/// The value of the first row of `table` whose key is `key`.
pub open spec fn lookup(table: Seq<EntryView>, key: Seq<char>) -> Option<Seq<char>>
    decreases table.len(),
{
    if table.len() == 0 {
        None
    } else if table[0].key == key {
        Some(table[0].value)
    } else {
        lookup(table.drop_first(), key)
    }
}

/// The known spellings of medication names, in lower case, and the name that
/// each is recorded under.
pub open spec fn medication_names() -> Seq<EntryView> {
    seq![
        row("metformina", "Metformina"),
        row("metformin", "Metformina"),
        row("enalapril", "Enalapril"),
        row("atorvastatina", "Atorvastatina"),
        row("atorvastatin", "Atorvastatina"),
        row("salbutamol", "Salbutamol"),
        row("budesonida", "Budesonida"),
        row("budesonide", "Budesonida"),
        row("warfarina", "Warfarina"),
        row("warfarin", "Warfarina"),
    ]
}

/// The rows of the table, for use at run time.
pub fn medication_name_entries() -> (r: Vec<Entry>)
    ensures
        r.deep_view() == medication_names(),
{
    let r = vec![
        Entry { key: "metformina", value: "Metformina" },
        Entry { key: "metformin", value: "Metformina" },
        Entry { key: "enalapril", value: "Enalapril" },
        Entry { key: "atorvastatina", value: "Atorvastatina" },
        Entry { key: "atorvastatin", value: "Atorvastatina" },
        Entry { key: "salbutamol", value: "Salbutamol" },
        Entry { key: "budesonida", value: "Budesonida" },
        Entry { key: "budesonide", value: "Budesonida" },
        Entry { key: "warfarina", value: "Warfarina" },
        Entry { key: "warfarin", value: "Warfarina" },
    ];
    assert(r.deep_view() =~= medication_names());
    r
}

/// Words in a document title, in lower case, and the diagnosis that each
/// stands for.
pub open spec fn title_table() -> Seq<EntryView> {
    seq![
        row("hipertenso", "Hipertensión"),
        row("diabético", "Diabetes"),
        row("hipercolesterolemia", "Hipercolesterolemia"),
        row("asma", "Asma"),
        row("múltiples condiciones", "Múltiples patologías"),
        row("anticoagulación", "Trastorno de coagulación"),
        row("control anticoagulación", "Anticoagulación"),
    ]
}

/// The rows of the table, for use at run time.
pub fn title_entries() -> (r: Vec<Entry>)
    ensures
        r.deep_view() == title_table(),
{
    let r = vec![
        Entry { key: "hipertenso", value: "Hipertensión" },
        Entry { key: "diabético", value: "Diabetes" },
        Entry { key: "hipercolesterolemia", value: "Hipercolesterolemia" },
        Entry { key: "asma", value: "Asma" },
        Entry { key: "múltiples condiciones", value: "Múltiples patologías" },
        Entry { key: "anticoagulación", value: "Trastorno de coagulación" },
        Entry { key: "control anticoagulación", value: "Anticoagulación" },
    ];
    assert(r.deep_view() =~= title_table());
    r
}

/// Words in free text, in lower case, that are recorded as a diagnosis under
/// their own name.
pub open spec fn keyword_table() -> Seq<EntryView> {
    seq![
        row("diabetes", "diabetes"),
        row("diabético", "diabético"),
        row("hipertension", "hipertension"),
        row("hipertenso", "hipertenso"),
        row("asma", "asma"),
        row("pneumonia", "pneumonia"),
        row("infection", "infection"),
        row("fracture", "fracture"),
        row("cancer", "cancer"),
        row("depression", "depression"),
        row("anxiety", "anxiety"),
        row("arthritis", "arthritis"),
        row("hipercolesterolemia", "hipercolesterolemia"),
        row("bronchitis", "bronchitis"),
        row("gastritis", "gastritis"),
        row("dermatitis", "dermatitis"),
        row("nephritis", "nephritis"),
        row("controlada", "controlada"),
        row("crónico", "crónico"),
        row("agudo", "agudo"),
        row("estable", "estable"),
        row("compensado", "compensado"),
    ]
}

/// The rows of the table, for use at run time.
pub fn keyword_entries() -> (r: Vec<Entry>)
    ensures
        r.deep_view() == keyword_table(),
{
    let r = vec![
        Entry { key: "diabetes", value: "diabetes" },
        Entry { key: "diabético", value: "diabético" },
        Entry { key: "hipertension", value: "hipertension" },
        Entry { key: "hipertenso", value: "hipertenso" },
        Entry { key: "asma", value: "asma" },
        Entry { key: "pneumonia", value: "pneumonia" },
        Entry { key: "infection", value: "infection" },
        Entry { key: "fracture", value: "fracture" },
        Entry { key: "cancer", value: "cancer" },
        Entry { key: "depression", value: "depression" },
        Entry { key: "anxiety", value: "anxiety" },
        Entry { key: "arthritis", value: "arthritis" },
        Entry { key: "hipercolesterolemia", value: "hipercolesterolemia" },
        Entry { key: "bronchitis", value: "bronchitis" },
        Entry { key: "gastritis", value: "gastritis" },
        Entry { key: "dermatitis", value: "dermatitis" },
        Entry { key: "nephritis", value: "nephritis" },
        Entry { key: "controlada", value: "controlada" },
        Entry { key: "crónico", value: "crónico" },
        Entry { key: "agudo", value: "agudo" },
        Entry { key: "estable", value: "estable" },
        Entry { key: "compensado", value: "compensado" },
    ];
    assert(r.deep_view() =~= keyword_table());
    r
}

/// Parts of medication names, in lower case, and the diagnosis that the
/// medication is given for.
pub open spec fn inference_table() -> Seq<EntryView> {
    seq![
        row("metformina", "Diabetes mellitus tipo 2"),
        row("metformin", "Diabetes mellitus tipo 2"),
        row("enalapril", "Hipertensión arterial"),
        row("atorvastatina", "Hipercolesterolemia"),
        row("atorvastatin", "Hipercolesterolemia"),
        row("salbutamol", "Asma bronquial"),
        row("budesonida", "Asma bronquial"),
        row("budesonide", "Asma bronquial"),
        row("warfarina", "Trastorno de coagulación"),
        row("warfarin", "Trastorno de coagulación"),
    ]
}

/// The rows of the table, for use at run time.
pub fn inference_entries() -> (r: Vec<Entry>)
    ensures
        r.deep_view() == inference_table(),
{
    let r = vec![
        Entry { key: "metformina", value: "Diabetes mellitus tipo 2" },
        Entry { key: "metformin", value: "Diabetes mellitus tipo 2" },
        Entry { key: "enalapril", value: "Hipertensión arterial" },
        Entry { key: "atorvastatina", value: "Hipercolesterolemia" },
        Entry { key: "atorvastatin", value: "Hipercolesterolemia" },
        Entry { key: "salbutamol", value: "Asma bronquial" },
        Entry { key: "budesonida", value: "Asma bronquial" },
        Entry { key: "budesonide", value: "Asma bronquial" },
        Entry { key: "warfarina", value: "Trastorno de coagulación" },
        Entry { key: "warfarin", value: "Trastorno de coagulación" },
    ];
    assert(r.deep_view() =~= inference_table());
    r
}

} // verus!
