//! The regular expressions that find medication mentions in free text.

use regex::Regex;
use vstd::prelude::*;

verus! {

/// `regex::Regex`, of which nothing is known but what its wrappers say.
#[verifier::external_type_specification]
#[verifier::external_body]
pub struct ExRegex(Regex);

/// Whether `pattern` is a regular expression that `Regex::new` accepts.
pub uninterp spec fn pattern_compiles(pattern: Seq<char>) -> bool;

/// Whether `regex` is one that `Regex::new` built.
pub uninterp spec fn built_by_new(regex: Regex) -> bool;

/// The pattern text that `regex` was built from.
pub uninterp spec fn regex_source(regex: Regex) -> Seq<char>;

/// The matches in `text`, from left to right and without overlap, of the
/// regular expression that `Regex::new` builds from `pattern`.
pub uninterp spec fn pattern_matches(pattern: Seq<char>, text: Seq<char>) -> Seq<Seq<char>>;

/// Calls `Regex::new`. A regular expression comes back exactly for the
/// patterns that compile, and it is the one built from `pattern`.
#[verifier::external_body]
pub(crate) fn compile(pattern: &str) -> (r: Option<Regex>)
    ensures
        r is Some <==> pattern_compiles(pattern@),
        r is Some ==> built_by_new(r->0) && regex_source(r->0) == pattern@,
{
    Regex::new(pattern).ok()
}

/// Calls `Regex::find_iter` and hands out the text of each match. A regular
/// expression that `Regex::new` built matches as its pattern text says.
#[verifier::external_body]
pub(crate) fn find_matches(regex: &Regex, text: &str) -> (r: Vec<String>)
    requires
        built_by_new(*regex),
    ensures
        r.deep_view() == pattern_matches(regex_source(*regex), text@),
{
    regex.find_iter(text).map(|m| m.as_str().to_owned()).collect()
}

/// Words that end like the name of a drug, words in front of a dosage unit,
/// and the names of common drugs; all without regard to letter case.
pub open spec fn medication_patterns() -> Seq<Seq<char>> {
    seq![
        "(?i)\\b\\w+(?:cillin|mycin|prazole|statin|tide|pine|zole|pril|sartan)\\b"@,
        "(?i)\\b\\w+\\s*(?:mg|tablet|capsule|injection)\\b"@,
        "(?i)\\baspirin\\b|\\bibuprofen\\b|\\bparacetamol\\b|\\bmetformin\\b|\\benalapril\\b|\\batorvastatin\\b|\\bsalbutamol\\b|\\bbudesonida\\b|\\bwarfarin\\b"@,
    ]
}

fn pattern_texts() -> (r: Vec<&'static str>)
    ensures
        r.deep_view() == medication_patterns(),
{
    let r = vec![
        "(?i)\\b\\w+(?:cillin|mycin|prazole|statin|tide|pine|zole|pril|sartan)\\b",
        "(?i)\\b\\w+\\s*(?:mg|tablet|capsule|injection)\\b",
        "(?i)\\baspirin\\b|\\bibuprofen\\b|\\bparacetamol\\b|\\bmetformin\\b|\\benalapril\\b|\\batorvastatin\\b|\\bsalbutamol\\b|\\bbudesonida\\b|\\bwarfarin\\b",
    ];
    assert(r.deep_view() =~= medication_patterns());
    r
}

/// The patterns of `all` that compile, in order.
pub open spec fn usable(all: Seq<Seq<char>>) -> Seq<Seq<char>>
    decreases all.len(),
{
    if all.len() == 0 {
        all
    } else if pattern_compiles(all.last()) {
        usable(all.drop_last()).push(all.last())
    } else {
        usable(all.drop_last())
    }
}

/// The pattern texts of `regexes`, in order.
pub open spec fn sources(regexes: Seq<Regex>) -> Seq<Seq<char>> {
    Seq::new(regexes.len(), |i: int| regex_source(regexes[i]))
}

/// The medication patterns, compiled once and used for every text.
pub struct MedicationPatterns {
    regexes: Vec<Regex>,
}

impl View for MedicationPatterns {
    type V = Seq<Seq<char>>;

    /// The pattern texts that are held in compiled form.
    closed spec fn view(&self) -> Seq<Seq<char>> {
        sources(self.regexes@)
    }
}

impl MedicationPatterns {
    #[verifier::type_invariant]
    spec fn all_built_by_new(self) -> bool {
        forall|i: int| 0 <= i < self.regexes@.len() ==> built_by_new(#[trigger] self.regexes@[i])
    }

    /// Compiles the medication patterns.
    pub fn new() -> (r: MedicationPatterns)
        ensures
            r@ == usable(medication_patterns()),
    {
        let texts = pattern_texts();
        let mut regexes: Vec<Regex> = Vec::new();
        let n = texts.len();
        let mut i: usize = 0;
        assert(medication_patterns().take(0) =~= Seq::empty());
        assert(sources(regexes@) =~= usable(medication_patterns().take(0)));
        while i < n
            invariant
                i <= n,
                n == texts@.len(),
                texts.deep_view() == medication_patterns(),
                sources(regexes@) == usable(medication_patterns().take(i as int)),
                forall|k: int| 0 <= k < regexes@.len() ==> built_by_new(#[trigger] regexes@[k]),
            decreases n - i,
        {
            let ghost all = medication_patterns();
            assert(all.take(i + 1).drop_last() =~= all.take(i as int));
            assert(all.take(i + 1).last() == all[i as int]);
            assert(texts.deep_view()[i as int] == texts@[i as int]@);
            let ghost before = regexes@;
            match compile(texts[i]) {
                Some(regex) => {
                    regexes.push(regex);
                    assert(sources(regexes@) =~= sources(before).push(all[i as int]));
                },
                None => {},
            }
            i += 1;
        }
        assert(medication_patterns().take(n as int) =~= medication_patterns());
        MedicationPatterns { regexes }
    }

    /// The number of patterns held.
    pub fn len(&self) -> (n: usize)
        ensures
            n == self@.len(),
    {
        self.regexes.len()
    }

    /// The matches of the `i`-th pattern in `text`, from left to right.
    pub fn matches_of(&self, i: usize, text: &str) -> (r: Vec<String>)
        requires
            i < self@.len(),
        ensures
            r.deep_view() == pattern_matches(self@[i as int], text@),
    {
        proof {
            use_type_invariant(self);
        }
        find_matches(&self.regexes[i], text)
    }
}

} // verus!
