//! Figures over a collection of documents.

use crate::model::lemma_deep_view_push;
use crate::model::CDADocument;
use crate::model::CountView;
use crate::model::Diagnosis;
use crate::model::DiagnosisCount;
use crate::model::DocumentView;
use crate::model::GenderCount;
use crate::model::Medication;
use crate::model::MedicationCount;
use crate::model::Statistics;
use crate::model::StatisticsView;
use crate::order::sort;
use crate::order::sorted;
use crate::order::Named;
use crate::order::Ordered;
use crate::text::same_text;
use vstd::pervasive::VecAdditionalExecFns;
use vstd::prelude::*;

verus! {

/// A name and the number of times it was counted.
#[derive(Debug, Clone, PartialEq, Eq)]
pub struct Tally {
    pub name: String,
    pub count: u32,
}

impl View for Tally {
    type V = CountView;

    open spec fn view(&self) -> CountView {
        CountView { name: self.name@, count: self.count }
    }
}

impl DeepView for Tally {
    type V = CountView;

    open spec fn deep_view(&self) -> CountView {
        self@
    }
}

/// The more frequent name stands first.
impl Ordered for Tally {
    open spec fn may_precede(a: CountView, b: CountView) -> bool {
        a.count >= b.count
    }

    proof fn order_is_total(a: CountView, b: CountView) {
    }

    proof fn order_is_transitive(a: CountView, b: CountView, c: CountView) {
    }

    fn precedes(&self, other: &Self) -> (r: bool) {
        self.count >= other.count
    }
}

/// `n` as a counter of 32 bits shows it.
pub open spec fn wrap32(n: int) -> u32 {
    (n % 0x1_0000_0000) as u32
}

/// The counter after one more.
pub open spec fn bumped(count: u32) -> u32 {
    if count == u32::MAX {
        0
    } else {
        (count + 1) as u32
    }
}

/// Counting one more shows one more.
pub proof fn lemma_bumped_wraps(n: int)
    requires
        n >= 0,
    ensures
        bumped(wrap32(n)) == wrap32(n + 1),
{
}

/// Counting `a` more shows `a` more.
pub proof fn lemma_wrap32_add(n: int, a: u32)
    requires
        n >= 0,
    ensures
        wrap32(wrap32(n) + a) == wrap32(n + a),
{
}

/// `table` with `name` counted once more: at its row, where it has one, and
/// otherwise in a new row at the end.
pub open spec fn counted(table: Seq<CountView>, name: Seq<char>) -> Seq<CountView>
    decreases table.len(),
{
    if table.len() == 0 {
        seq![CountView { name, count: 1 }]
    } else if table[0].name == name {
        seq![CountView { name, count: bumped(table[0].count) }] + table.drop_first()
    } else {
        seq![table[0]] + counted(table.drop_first(), name)
    }
}

/// `table` with the name of each item counted, from the first item on.
pub open spec fn names_counted<T: Named>(table: Seq<CountView>, items: Seq<T::V>) -> Seq<
    CountView,
>
    decreases items.len(),
{
    if items.len() == 0 {
        table
    } else {
        counted(names_counted::<T>(table, items.drop_last()), T::name_of(items.last()))
    }
}

/// The gender under which a document is counted.
pub open spec fn gender_of(doc: DocumentView) -> Seq<char> {
    match doc.patient.gender {
        Some(gender) => gender,
        None => "Unknown"@,
    }
}

/// How often each gender occurs in `docs`.
pub open spec fn genders_counted(docs: Seq<DocumentView>) -> Seq<CountView>
    decreases docs.len(),
{
    if docs.len() == 0 {
        Seq::empty()
    } else {
        counted(genders_counted(docs.drop_last()), gender_of(docs.last()))
    }
}

/// How often each diagnosis name occurs in `docs`.
pub open spec fn diagnoses_counted(docs: Seq<DocumentView>) -> Seq<CountView>
    decreases docs.len(),
{
    if docs.len() == 0 {
        Seq::empty()
    } else {
        names_counted::<Diagnosis>(diagnoses_counted(docs.drop_last()), docs.last().diagnoses)
    }
}

/// How often each medication name occurs in `docs`.
pub open spec fn medications_counted(docs: Seq<DocumentView>) -> Seq<CountView>
    decreases docs.len(),
{
    if docs.len() == 0 {
        Seq::empty()
    } else {
        names_counted::<Medication>(
            medications_counted(docs.drop_last()),
            docs.last().medications,
        )
    }
}

/// The sum of the ages that are known.
pub open spec fn age_total(docs: Seq<DocumentView>) -> int
    decreases docs.len(),
{
    if docs.len() == 0 {
        0
    } else {
        age_total(docs.drop_last()) + match docs.last().patient.age {
            Some(age) => age as int,
            None => 0,
        }
    }
}

/// The number of ages that are known.
pub open spec fn ages_known(docs: Seq<DocumentView>) -> int
    decreases docs.len(),
{
    if docs.len() == 0 {
        0
    } else {
        ages_known(docs.drop_last()) + if docs.last().patient.age is Some {
            1int
        } else {
            0int
        }
    }
}

/// Neither the sum nor the number of the known ages is negative.
pub proof fn lemma_ages_nonnegative(docs: Seq<DocumentView>)
    ensures
        age_total(docs) >= 0,
        ages_known(docs) >= 0,
    decreases docs.len(),
{
    if docs.len() > 0 {
        lemma_ages_nonnegative(docs.drop_last());
    }
}

/// The five most frequent names of `table`, the most frequent first; names
/// that are equally frequent keep the order they have in `table`.
pub open spec fn top_five(table: Seq<CountView>) -> Seq<CountView> {
    let ranked = sorted::<Tally>(table);
    if ranked.len() > 5 {
        ranked.take(5)
    } else {
        ranked
    }
}

/// The figures over `docs`.
pub open spec fn statistics_of(docs: Seq<DocumentView>) -> StatisticsView {
    StatisticsView {
        total_documents: wrap32(docs.len() as int),
        total_patients: wrap32(docs.len() as int),
        age_sum: wrap32(age_total(docs)),
        age_count: wrap32(ages_known(docs)),
        gender_distribution: genders_counted(docs),
        top_diagnoses: top_five(diagnoses_counted(docs)),
        top_medications: top_five(medications_counted(docs)),
        processing_time_ms: 0,
    }
}

/// Where `counted` counts: at the first row with the name.
pub proof fn lemma_counted_at(table: Seq<CountView>, name: Seq<char>, i: int)
    requires
        0 <= i < table.len(),
        table[i].name == name,
        forall|k: int| 0 <= k < i ==> (#[trigger] table[k]).name != name,
    ensures
        counted(table, name) == table.update(
            i,
            CountView { name, count: bumped(table[i].count) },
        ),
    decreases i,
{
    if i == 0 {
        assert(counted(table, name) =~= table.update(
            0,
            CountView { name, count: bumped(table[0].count) },
        ));
    } else {
        let rest = table.drop_first();
        assert forall|k: int| 0 <= k < i - 1 implies (#[trigger] rest[k]).name != name by {
            assert(rest[k] == table[k + 1]);
        }
        assert(table[0].name != name);
        lemma_counted_at(rest, name, i - 1);
        assert(seq![table[0]] + rest.update(
            i - 1,
            CountView { name, count: bumped(rest[i - 1].count) },
        ) =~= table.update(i, CountView { name, count: bumped(table[i].count) }));
    }
}

/// Where `counted` counts a name that has no row: in a new row at the end.
pub proof fn lemma_counted_new(table: Seq<CountView>, name: Seq<char>)
    requires
        forall|k: int| 0 <= k < table.len() ==> (#[trigger] table[k]).name != name,
    ensures
        counted(table, name) == table.push(CountView { name, count: 1 }),
    decreases table.len(),
{
    if table.len() == 0 {
        assert(counted(table, name) =~= table.push(CountView { name, count: 1 }));
    } else {
        let rest = table.drop_first();
        assert forall|k: int| 0 <= k < rest.len() implies (#[trigger] rest[k]).name != name by {
            assert(rest[k] == table[k + 1]);
        }
        assert(table[0].name != name);
        lemma_counted_new(rest, name);
        assert(seq![table[0]] + rest.push(CountView { name, count: 1 }) =~= table.push(
            CountView { name, count: 1 },
        ));
    }
}

/// Counts `name` once more in `table`.
pub fn count_name(table: &mut Vec<Tally>, name: &str)
    ensures
        final(table).deep_view() == counted(old(table).deep_view(), name@),
{
    let ghost start = table.deep_view();
    let n = table.len();
    let mut i: usize = 0;
    while i < n
        invariant
            i <= n,
            n == table@.len(),
            table.deep_view() == start,
            table@ == old(table)@,
            forall|k: int| 0 <= k < i ==> (#[trigger] start[k]).name != name@,
        decreases n - i,
    {
        assert(start[i as int] == table@[i as int]@);
        if same_text(table[i].name.as_str(), name) {
            let next = if table[i].count == u32::MAX {
                0
            } else {
                table[i].count + 1
            };
            let row = Tally { name: table[i].name.clone(), count: next };
            table.set(i, row);
            proof {
                lemma_counted_at(start, name@, i as int);
                assert(table.deep_view() =~= start.update(i as int, row@));
            }
            return ;
        }
        i += 1;
    }
    let ghost before = *table;
    let row = Tally { name: name.to_owned(), count: 1 };
    table.push(row);
    proof {
        lemma_counted_new(start, name@);
        lemma_deep_view_push(before, *table, row);
    }
}

/// Counts the name of each item of `items` in `table`.
pub fn count_names<T: Named>(table: &mut Vec<Tally>, items: &Vec<T>)
    ensures
        final(table).deep_view() == names_counted::<T>(
            old(table).deep_view(),
            items.deep_view(),
        ),
{
    let ghost start = table.deep_view();
    let ghost all = items.deep_view();
    let n = items.len();
    let mut i: usize = 0;
    assert(all.take(0) =~= Seq::empty());
    while i < n
        invariant
            i <= n,
            n == items@.len(),
            all == items.deep_view(),
            table.deep_view() == names_counted::<T>(start, all.take(i as int)),
        decreases n - i,
    {
        proof {
            assert(all.take(i + 1).drop_last() =~= all.take(i as int));
            assert(all.take(i + 1).last() == items@[i as int].deep_view());
        }
        count_name(table, items[i].name().as_str());
        i += 1;
    }
    assert(all.take(n as int) =~= all);
}

/// The five most frequent names of `table`, the most frequent first.
pub fn rank_top_five(table: Vec<Tally>) -> (r: Vec<Tally>)
    ensures
        r.deep_view() == top_five(table.deep_view()),
{
    let mut ranked = table;
    sort(&mut ranked);
    if ranked.len() > 5 {
        let ghost before = ranked;
        ranked.truncate(5);
        assert(ranked.deep_view() =~= before.deep_view().take(5));
    }
    ranked
}

fn gender_rows(table: &Vec<Tally>) -> (r: Vec<GenderCount>)
    ensures
        r.deep_view() == table.deep_view(),
{
    let mut out: Vec<GenderCount> = Vec::new();
    let n = table.len();
    let mut i: usize = 0;
    while i < n
        invariant
            i <= n,
            n == table@.len(),
            out.deep_view() =~= table.deep_view().take(i as int),
        decreases n - i,
    {
        let ghost before = out;
        let row = GenderCount { gender: table[i].name.clone(), count: table[i].count };
        out.push(row);
        proof {
            lemma_deep_view_push(before, out, row);
            assert(table.deep_view()[i as int] == table@[i as int]@);
            assert(table.deep_view().take(i + 1) =~= table.deep_view().take(i as int).push(row@));
        }
        i += 1;
    }
    assert(table.deep_view().take(n as int) =~= table.deep_view());
    out
}

fn diagnosis_rows(table: &Vec<Tally>) -> (r: Vec<DiagnosisCount>)
    ensures
        r.deep_view() == table.deep_view(),
{
    let mut out: Vec<DiagnosisCount> = Vec::new();
    let n = table.len();
    let mut i: usize = 0;
    while i < n
        invariant
            i <= n,
            n == table@.len(),
            out.deep_view() =~= table.deep_view().take(i as int),
        decreases n - i,
    {
        let ghost before = out;
        let row = DiagnosisCount { name: table[i].name.clone(), count: table[i].count };
        out.push(row);
        proof {
            lemma_deep_view_push(before, out, row);
            assert(table.deep_view()[i as int] == table@[i as int]@);
            assert(table.deep_view().take(i + 1) =~= table.deep_view().take(i as int).push(row@));
        }
        i += 1;
    }
    assert(table.deep_view().take(n as int) =~= table.deep_view());
    out
}

fn medication_rows(table: &Vec<Tally>) -> (r: Vec<MedicationCount>)
    ensures
        r.deep_view() == table.deep_view(),
{
    let mut out: Vec<MedicationCount> = Vec::new();
    let n = table.len();
    let mut i: usize = 0;
    while i < n
        invariant
            i <= n,
            n == table@.len(),
            out.deep_view() =~= table.deep_view().take(i as int),
        decreases n - i,
    {
        let ghost before = out;
        let row = MedicationCount { name: table[i].name.clone(), count: table[i].count };
        out.push(row);
        proof {
            lemma_deep_view_push(before, out, row);
            assert(table.deep_view()[i as int] == table@[i as int]@);
            assert(table.deep_view().take(i + 1) =~= table.deep_view().take(i as int).push(row@));
        }
        i += 1;
    }
    assert(table.deep_view().take(n as int) =~= table.deep_view());
    out
}

/// The figures over `documents`: how many there are, the sum and the number
/// of the known ages, how often each gender occurs, and the five most
/// frequent diagnoses and medications.
pub fn calculate_statistics(documents: &Vec<CDADocument>) -> (stats: Statistics)
    ensures
        stats@ == statistics_of(documents.deep_view()),
{
    let ghost docs = documents.deep_view();
    let mut genders: Vec<Tally> = Vec::new();
    let mut diagnoses: Vec<Tally> = Vec::new();
    let mut medications: Vec<Tally> = Vec::new();
    let mut total: u32 = 0;
    let mut age_sum: u32 = 0;
    let mut age_count: u32 = 0;
    let n = documents.len();
    let mut i: usize = 0;
    assert(docs.take(0) =~= Seq::empty());
    assert(genders.deep_view() =~= Seq::empty());
    assert(diagnoses.deep_view() =~= Seq::empty());
    assert(medications.deep_view() =~= Seq::empty());
    while i < n
        invariant
            i <= n,
            n == documents@.len(),
            docs == documents.deep_view(),
            total == wrap32(i as int),
            age_sum == wrap32(age_total(docs.take(i as int))),
            age_count == wrap32(ages_known(docs.take(i as int))),
            genders.deep_view() == genders_counted(docs.take(i as int)),
            diagnoses.deep_view() == diagnoses_counted(docs.take(i as int)),
            medications.deep_view() == medications_counted(docs.take(i as int)),
        decreases n - i,
    {
        let doc = &documents[i];
        proof {
            assert(docs.take(i + 1).drop_last() =~= docs.take(i as int));
            assert(docs.take(i + 1).last() == doc@);
            lemma_ages_nonnegative(docs.take(i as int));
            lemma_bumped_wraps(i as int);
            lemma_bumped_wraps(ages_known(docs.take(i as int)));
        }
        match &doc.patient.gender {
            Some(gender) => count_name(&mut genders, gender.as_str()),
            None => count_name(&mut genders, "Unknown"),
        }
        match doc.patient.age {
            Some(age) => {
                proof {
                    lemma_wrap32_add(age_total(docs.take(i as int)), age);
                }
                age_sum = ((age_sum as u64 + age as u64) % 0x1_0000_0000) as u32;
                age_count = if age_count == u32::MAX {
                    0
                } else {
                    age_count + 1
                };
            },
            None => {},
        }
        count_names(&mut diagnoses, &doc.diagnoses);
        count_names(&mut medications, &doc.medications);
        total = if total == u32::MAX {
            0
        } else {
            total + 1
        };
        i += 1;
    }
    assert(docs.take(n as int) =~= docs);
    let top_diagnoses = rank_top_five(diagnoses);
    let top_medications = rank_top_five(medications);
    Statistics {
        total_documents: total,
        total_patients: total,
        age_sum,
        age_count,
        gender_distribution: gender_rows(&genders),
        top_diagnoses: diagnosis_rows(&top_diagnoses),
        top_medications: medication_rows(&top_medications),
        processing_time_ms: 0,
    }
}

/// The count that `table` shows for `name`: that of its first row with the
/// name, and 0 where it has none.
pub open spec fn count_of(table: Seq<CountView>, name: Seq<char>) -> u32
    decreases table.len(),
{
    if table.len() == 0 {
        0
    } else if table[0].name == name {
        table[0].count
    } else {
        count_of(table.drop_first(), name)
    }
}

/// Whether no two rows of `table` have the same name.
pub open spec fn distinct_rows(table: Seq<CountView>) -> bool {
    forall|i: int, j: int|
        #![trigger table[i], table[j]]
        0 <= i < j < table.len() ==> table[i].name != table[j].name
}

/// Whether `table` has a row for `name`.
pub open spec fn has_row(table: Seq<CountView>, name: Seq<char>) -> bool {
    exists|i: int| 0 <= i < table.len() && (#[trigger] table[i]).name == name
}

/// The names of the rows, in order.
pub open spec fn row_names(table: Seq<CountView>) -> Seq<Seq<char>> {
    Seq::new(table.len(), |i: int| table[i].name)
}

/// How many items of `items` have the name `name`.
pub open spec fn mentions<T: Named>(items: Seq<T::V>, name: Seq<char>) -> int
    decreases items.len(),
{
    if items.len() == 0 {
        0
    } else {
        mentions::<T>(items.drop_last(), name) + if T::name_of(items.last()) == name {
            1int
        } else {
            0int
        }
    }
}

/// How many documents are counted under the gender `gender`.
pub open spec fn gender_mentions(docs: Seq<DocumentView>, gender: Seq<char>) -> int
    decreases docs.len(),
{
    if docs.len() == 0 {
        0
    } else {
        gender_mentions(docs.drop_last(), gender) + if gender_of(docs.last()) == gender {
            1int
        } else {
            0int
        }
    }
}

/// How many diagnoses of the documents have the name `name`.
pub open spec fn diagnosis_mentions(docs: Seq<DocumentView>, name: Seq<char>) -> int
    decreases docs.len(),
{
    if docs.len() == 0 {
        0
    } else {
        diagnosis_mentions(docs.drop_last(), name) + mentions::<Diagnosis>(
            docs.last().diagnoses,
            name,
        )
    }
}

/// How many medications of the documents have the name `name`.
pub open spec fn medication_mentions(docs: Seq<DocumentView>, name: Seq<char>) -> int
    decreases docs.len(),
{
    if docs.len() == 0 {
        0
    } else {
        medication_mentions(docs.drop_last(), name) + mentions::<Medication>(
            docs.last().medications,
            name,
        )
    }
}

/// What counting a name does to a table: the name's count goes up by one,
/// every other count stays, the rows keep their order and their distinct
/// names, and a name that had no row gets the last one.
pub proof fn lemma_counted_effect(table: Seq<CountView>, name: Seq<char>, other: Seq<char>)
    ensures
        count_of(counted(table, name), name) == bumped(count_of(table, name)),
        other != name ==> count_of(counted(table, name), other) == count_of(table, other),
        distinct_rows(table) ==> distinct_rows(counted(table, name)),
        row_names(counted(table, name)) == if has_row(table, name) {
            row_names(table)
        } else {
            row_names(table).push(name)
        },
        has_row(counted(table, name), name),
        has_row(table, other) ==> has_row(counted(table, name), other),
    decreases table.len(),
{
    let after = counted(table, name);
    if table.len() == 0 {
        assert(after[0].name == name);
        assert(after.drop_first().len() == 0);
        assert(count_of(after.drop_first(), other) == 0);
        assert(row_names(after) =~= row_names(table).push(name));
    } else if table[0].name == name {
        assert(after[0].name == name);
        assert(after.drop_first() =~= table.drop_first());
        assert(row_names(after) =~= row_names(table));
        assert forall|i: int, j: int|
            #![trigger after[i], after[j]]
            0 <= i < j < after.len() && distinct_rows(table) implies after[i].name
            != after[j].name by {
            assert(after[j] == table[j]);
            assert(table[i].name != table[j].name);
        }
        if has_row(table, other) {
            let k = choose|k: int| 0 <= k < table.len() && (#[trigger] table[k]).name == other;
            assert(after[k].name == other);
        }
    } else {
        let rest = table.drop_first();
        lemma_counted_effect(rest, name, other);
        let tail = counted(rest, name);
        assert(after.drop_first() =~= tail);
        assert(after[0] == table[0]);
        if has_row(rest, name) {
            let k = choose|k: int| 0 <= k < rest.len() && (#[trigger] rest[k]).name == name;
            assert(table[k + 1].name == name);
            assert(row_names(after) =~= row_names(table)) by {
                assert(row_names(tail) == row_names(rest));
                assert(row_names(tail).len() == tail.len() && row_names(rest).len() == rest.len());
                assert(after.len() == table.len());
                assert forall|i: int| 0 <= i < after.len() implies row_names(after)[i]
                    == row_names(table)[i] by {
                    if i > 0 {
                        assert(after[i] == tail[i - 1]);
                        assert(row_names(tail)[i - 1] == row_names(rest)[i - 1]);
                    }
                }
            }
        } else {
            assert(!has_row(table, name)) by {
                if has_row(table, name) {
                    let k = choose|k: int|
                        0 <= k < table.len() && (#[trigger] table[k]).name == name;
                    assert(rest[k - 1].name == name);
                }
            }
            assert(row_names(after) =~= row_names(table).push(name)) by {
                assert(row_names(tail) == row_names(rest).push(name));
                assert(row_names(tail).len() == tail.len() && row_names(rest).len() == rest.len());
                assert(after.len() == table.len() + 1);
                assert forall|i: int| 0 <= i < after.len() implies row_names(after)[i]
                    == row_names(table).push(name)[i] by {
                    if i > 0 {
                        assert(after[i] == tail[i - 1]);
                        assert(row_names(tail)[i - 1] == row_names(rest).push(name)[i - 1]);
                    }
                }
            }
        }
        let k = choose|k: int| 0 <= k < tail.len() && (#[trigger] tail[k]).name == name;
        assert(after[k + 1].name == name);
        if has_row(table, other) {
            let m = choose|m: int| 0 <= m < table.len() && (#[trigger] table[m]).name == other;
            if m == 0 {
                assert(after[0].name == other);
            } else {
                assert(rest[m - 1].name == other);
                let q = choose|q: int| 0 <= q < tail.len() && (#[trigger] tail[q]).name == other;
                assert(after[q + 1].name == other);
            }
        }
        if distinct_rows(table) {
            assert forall|i: int, j: int|
                #![trigger rest[i], rest[j]]
                0 <= i < j < rest.len() implies rest[i].name != rest[j].name by {
                assert(table[i + 1].name != table[j + 1].name);
            }
            assert forall|i: int, j: int|
                #![trigger after[i], after[j]]
                0 <= i < j < after.len() implies after[i].name != after[j].name by {
                assert(after[j] == tail[j - 1]);
                if i > 0 {
                    assert(after[i] == tail[i - 1]);
                    assert(tail[i - 1].name != tail[j - 1].name);
                } else {
                    assert(row_names(tail)[j - 1] == tail[j - 1].name);
                    if j - 1 < rest.len() {
                        assert(row_names(rest)[j - 1] == rest[j - 1].name);
                        assert(table[0].name != table[j].name);
                    }
                }
            }
        }
    }
}

/// A table into which the names of `items` were counted shows for each name
/// its count before and the number of items of that name, and keeps its rows
/// distinct.
pub proof fn lemma_names_counted<T: Named>(table: Seq<CountView>, items: Seq<T::V>, name: Seq<char>)
    ensures
        count_of(names_counted::<T>(table, items), name) == wrap32(
            count_of(table, name) + mentions::<T>(items, name),
        ),
        mentions::<T>(items, name) >= 0,
        distinct_rows(table) ==> distinct_rows(names_counted::<T>(table, items)),
    decreases items.len(),
{
    if items.len() > 0 {
        let front = items.drop_last();
        lemma_names_counted::<T>(table, front, name);
        let before = names_counted::<T>(table, front);
        lemma_counted_effect(before, T::name_of(items.last()), name);
        lemma_bumped_wraps(count_of(table, name) + mentions::<T>(front, name));
    }
}

} // verus!
