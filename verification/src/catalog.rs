//! Ingestion pipeline: folds a dump of subject/predicate/value statements
//! about chess players into one normalized `PlayerInfo` record per subject.
//!
//! Statements are processed in input order. Usernames and images accumulate
//! as duplicate-free lists, ratings max-merge, country fields are
//! last-write-wins, and date-valued facts are parsed from RFC 3339 text.
//! A malformed date, an unparsable rating, or a missing required qualifier
//! is fatal for the whole run: no partial catalog is ever produced.

use vstd::prelude::*;

use crate::dates::{date_str_of, format_date, parse_rfc3339_date, rfc3339_date_of};
use crate::text::{parse_u32, parse_u32_of, str_eq};

verus! {

/// One subject-predicate-value fact from the source dump, with an optional
/// qualifier (used by compound facts such as a birth place with its country,
/// or a title with its award date).
pub struct Statement {
    pub subject: String,
    pub predicate: String,
    pub value: String,
    pub qualifier_label: Option<String>,
    pub qualifier_value: Option<String>,
}

/// The normalized, merged profile of one player.
pub struct PlayerInfo {
    pub name: String,
    pub birth_date: String,
    pub birth_place: String,
    pub year_of_gm: i32,
    pub chess_com_name: Vec<String>,
    pub lichess_name: Vec<String>,
    pub peak_rating: u32,
    pub sport_country: String,
    pub citizenship_country: String,
    pub images: Vec<String>,
}

/// Why a whole ingestion run was rejected.
#[derive(Clone, Copy, Debug, PartialEq, Eq, Structural)]
pub enum BuildError {
    /// A date-valued field was present but not valid RFC 3339 text.
    DateUnparsable,
    /// A statement that requires a qualifier came without one.
    QualifierMissing,
    /// An Elo rating value was not an unsigned decimal number.
    RatingUnparsable,
}

// ---------------------------------------------------------------------------
// The predicate vocabulary
// ---------------------------------------------------------------------------

pub open spec fn lbl_lichess() -> Seq<char> {
    "Lichess username"@
}

pub open spec fn lbl_chess_com() -> Seq<char> {
    "Chess.com member ID"@
}

pub open spec fn lbl_title() -> Seq<char> {
    "title of chess person"@
}

pub open spec fn lbl_rating() -> Seq<char> {
    "Elo rating"@
}

pub open spec fn lbl_birth_place() -> Seq<char> {
    "place of birth"@
}

pub open spec fn lbl_birth_date() -> Seq<char> {
    "date of birth"@
}

pub open spec fn lbl_sport() -> Seq<char> {
    "country for sport"@
}

pub open spec fn lbl_citizenship() -> Seq<char> {
    "country of citizenship"@
}

pub open spec fn lbl_image() -> Seq<char> {
    "image"@
}

pub open spec fn lit_grandmaster() -> Seq<char> {
    "Grandmaster"@
}

// ---------------------------------------------------------------------------
// Field models: what each record field is, as a function of the statements
// ---------------------------------------------------------------------------

/// `x` speaks about subject `subj` under predicate `pred`.
pub open spec fn stmt_is(x: Statement, subj: Seq<char>, pred: Seq<char>) -> bool {
    x.subject@ == subj && x.predicate@ == pred
}

/// Last-write-wins value of `pred` statements for `subj`; empty if none.
pub open spec fn last_value_of(s: Seq<Statement>, subj: Seq<char>, pred: Seq<char>) -> Seq<char>
    decreases s.len(),
{
    if s.len() == 0 {
        Seq::empty()
    } else if stmt_is(s.last(), subj, pred) {
        s.last().value@
    } else {
        last_value_of(s.drop_last(), subj, pred)
    }
}

/// All values of `pred` statements for `subj`, in first-seen order, without
/// duplicates.
pub open spec fn dedup_values_of(s: Seq<Statement>, subj: Seq<char>, pred: Seq<char>) -> Seq<
    Seq<char>,
>
    decreases s.len(),
{
    if s.len() == 0 {
        Seq::empty()
    } else {
        let p = dedup_values_of(s.drop_last(), subj, pred);
        if stmt_is(s.last(), subj, pred) && !p.contains(s.last().value@) {
            p.push(s.last().value@)
        } else {
            p
        }
    }
}

/// Maximum of all parsable Elo rating values for `subj`; 0 if none.
pub open spec fn peak_of(s: Seq<Statement>, subj: Seq<char>) -> u32
    decreases s.len(),
{
    if s.len() == 0 {
        0u32
    } else {
        let p = peak_of(s.drop_last(), subj);
        if stmt_is(s.last(), subj, lbl_rating()) {
            match parse_u32_of(s.last().value@) {
                Some(v) => if v > p {
                    v
                } else {
                    p
                },
                None => p,
            }
        } else {
            p
        }
    }
}

/// Birth place of `subj`: the place, or `place, qualifier` when the last
/// birth-place statement carries a qualifier.
pub open spec fn birth_place_of(s: Seq<Statement>, subj: Seq<char>) -> Seq<char>
    decreases s.len(),
{
    if s.len() == 0 {
        Seq::empty()
    } else if stmt_is(s.last(), subj, lbl_birth_place()) {
        let x = s.last();
        if x.qualifier_label is Some {
            match x.qualifier_value {
                Some(q) => x.value@ + ", "@ + q@,
                // a faulted run; the value is never served
                None => x.value@,
            }
        } else {
            x.value@
        }
    } else {
        birth_place_of(s.drop_last(), subj)
    }
}

/// Birth date of `subj`, rendered as `day.month.year`, from the last
/// date-of-birth statement.
pub open spec fn birth_date_of(s: Seq<Statement>, subj: Seq<char>) -> Seq<char>
    decreases s.len(),
{
    if s.len() == 0 {
        Seq::empty()
    } else if stmt_is(s.last(), subj, lbl_birth_date()) {
        match rfc3339_date_of(s.last().value@) {
            Some(d) => date_str_of(d.0, d.1, d.2),
            // a faulted run; the value is never served
            None => Seq::empty(),
        }
    } else {
        birth_date_of(s.drop_last(), subj)
    }
}

/// `x` states that `subj` holds the Grandmaster title.
pub open spec fn is_gm_title(x: Statement, subj: Seq<char>) -> bool {
    stmt_is(x, subj, lbl_title()) && x.value@ == lit_grandmaster()
}

/// The year of `subj`'s Grandmaster title, from the qualifier date of the
/// last Grandmaster title statement; 0 if none.
pub open spec fn year_of_gm_of(s: Seq<Statement>, subj: Seq<char>) -> i32
    decreases s.len(),
{
    if s.len() == 0 {
        0i32
    } else if is_gm_title(s.last(), subj) {
        match s.last().qualifier_value {
            Some(q) => match rfc3339_date_of(q@) {
                Some(d) => d.0,
                // a faulted run; the value is never served
                None => 0i32,
            },
            None => 0i32,
        }
    } else {
        year_of_gm_of(s.drop_last(), subj)
    }
}

/// The distinct subject labels, in first-occurrence order.
pub open spec fn subjects_of(s: Seq<Statement>) -> Seq<Seq<char>>
    decreases s.len(),
{
    if s.len() == 0 {
        Seq::empty()
    } else {
        let p = subjects_of(s.drop_last());
        if p.contains(s.last().subject@) {
            p
        } else {
            p.push(s.last().subject@)
        }
    }
}

// ---------------------------------------------------------------------------
// Faults
// ---------------------------------------------------------------------------

/// The fault a single statement raises, if any. Faults are fatal for the
/// whole run.
pub open spec fn stmt_fault(x: Statement) -> Option<BuildError> {
    if x.predicate@ == lbl_birth_date() && rfc3339_date_of(x.value@) is None {
        Some(BuildError::DateUnparsable)
    } else if x.predicate@ == lbl_title() && x.value@ == lit_grandmaster() {
        match x.qualifier_value {
            None => Some(BuildError::QualifierMissing),
            Some(q) => if rfc3339_date_of(q@) is None {
                Some(BuildError::DateUnparsable)
            } else {
                None
            },
        }
    } else if x.predicate@ == lbl_rating() && parse_u32_of(x.value@) is None {
        Some(BuildError::RatingUnparsable)
    } else if x.predicate@ == lbl_birth_place() && x.qualifier_label is Some
        && x.qualifier_value is None {
        Some(BuildError::QualifierMissing)
    } else {
        None
    }
}

/// The fault of the first faulty statement, if any.
pub open spec fn first_fault(s: Seq<Statement>) -> Option<BuildError>
    decreases s.len(),
{
    if s.len() == 0 {
        None
    } else if stmt_fault(s.first()) is Some {
        stmt_fault(s.first())
    } else {
        first_fault(s.drop_first())
    }
}

// ---------------------------------------------------------------------------
// Record / catalog correspondence
// ---------------------------------------------------------------------------

/// `r` is the record that the statements `s` define for subject `subj`.
pub open spec fn record_matches(r: PlayerInfo, s: Seq<Statement>, subj: Seq<char>) -> bool {
    &&& r.name@ == subj
    &&& r.birth_date@ == birth_date_of(s, subj)
    &&& r.birth_place@ == birth_place_of(s, subj)
    &&& r.year_of_gm == year_of_gm_of(s, subj)
    &&& r.chess_com_name.deep_view() == dedup_values_of(s, subj, lbl_chess_com())
    &&& r.lichess_name.deep_view() == dedup_values_of(s, subj, lbl_lichess())
    &&& r.peak_rating == peak_of(s, subj)
    &&& r.sport_country@ == last_value_of(s, subj, lbl_sport())
    &&& r.citizenship_country@ == last_value_of(s, subj, lbl_citizenship())
    &&& r.images.deep_view() == dedup_values_of(s, subj, lbl_image())
}

/// `recs` is the complete catalog that the statements `s` define: one record
/// per distinct subject, in first-occurrence order.
pub open spec fn catalog_matches(s: Seq<Statement>, recs: Seq<PlayerInfo>) -> bool {
    &&& recs.len() == subjects_of(s).len()
    &&& forall|k: int|
        0 <= k < recs.len() ==> #[trigger] record_matches(recs[k], s, subjects_of(s)[k])
}

/// A freshly created record: named, with every other field at its zero value.
pub open spec fn blank_named(r: PlayerInfo, subj: Seq<char>) -> bool {
    &&& r.name@ == subj
    &&& r.birth_date@ == Seq::<char>::empty()
    &&& r.birth_place@ == Seq::<char>::empty()
    &&& r.year_of_gm == 0
    &&& r.chess_com_name.deep_view() == Seq::<Seq<char>>::empty()
    &&& r.lichess_name.deep_view() == Seq::<Seq<char>>::empty()
    &&& r.peak_rating == 0
    &&& r.sport_country@ == Seq::<char>::empty()
    &&& r.citizenship_country@ == Seq::<char>::empty()
    &&& r.images.deep_view() == Seq::<Seq<char>>::empty()
}

/// How one statement steps the record of its own subject.
pub open spec fn record_step(r0: PlayerInfo, x: Statement, r1: PlayerInfo) -> bool {
    let subj = r0.name@;
    &&& r1.name@ == r0.name@
    &&& r1.lichess_name.deep_view() == (if stmt_is(x, subj, lbl_lichess())
        && !r0.lichess_name.deep_view().contains(x.value@) {
        r0.lichess_name.deep_view().push(x.value@)
    } else {
        r0.lichess_name.deep_view()
    })
    &&& r1.chess_com_name.deep_view() == (if stmt_is(x, subj, lbl_chess_com())
        && !r0.chess_com_name.deep_view().contains(x.value@) {
        r0.chess_com_name.deep_view().push(x.value@)
    } else {
        r0.chess_com_name.deep_view()
    })
    &&& r1.images.deep_view() == (if stmt_is(x, subj, lbl_image())
        && !r0.images.deep_view().contains(x.value@) {
        r0.images.deep_view().push(x.value@)
    } else {
        r0.images.deep_view()
    })
    &&& r1.peak_rating == (if stmt_is(x, subj, lbl_rating()) {
        match parse_u32_of(x.value@) {
            Some(v) => if v > r0.peak_rating {
                v
            } else {
                r0.peak_rating
            },
            None => r0.peak_rating,
        }
    } else {
        r0.peak_rating
    })
    &&& r1.birth_place@ == (if stmt_is(x, subj, lbl_birth_place()) {
        if x.qualifier_label is Some {
            match x.qualifier_value {
                Some(q) => x.value@ + ", "@ + q@,
                None => x.value@,
            }
        } else {
            x.value@
        }
    } else {
        r0.birth_place@
    })
    &&& r1.birth_date@ == (if stmt_is(x, subj, lbl_birth_date()) {
        match rfc3339_date_of(x.value@) {
            Some(d) => date_str_of(d.0, d.1, d.2),
            None => Seq::<char>::empty(),
        }
    } else {
        r0.birth_date@
    })
    &&& r1.year_of_gm == (if is_gm_title(x, subj) {
        match x.qualifier_value {
            Some(q) => match rfc3339_date_of(q@) {
                Some(d) => d.0,
                None => 0i32,
            },
            None => 0i32,
        }
    } else {
        r0.year_of_gm
    })
    &&& r1.sport_country@ == (if stmt_is(x, subj, lbl_sport()) {
        x.value@
    } else {
        r0.sport_country@
    })
    &&& r1.citizenship_country@ == (if stmt_is(x, subj, lbl_citizenship()) {
        x.value@
    } else {
        r0.citizenship_country@
    })
}

/// Some record in `recs` already carries the name `subj`.
pub open spec fn has_name(recs: Seq<PlayerInfo>, subj: Seq<char>) -> bool {
    exists|k: int| 0 <= k < recs.len() && #[trigger] recs[k].name@ == subj
}

// ---------------------------------------------------------------------------
// Lemmas
// ---------------------------------------------------------------------------

proof fn lemma_push_forms(s: Seq<Statement>, x: Statement)
    ensures
        s.push(x).drop_last() == s,
        s.push(x).last() == x,
        s.push(x).len() == s.len() + 1,
{
    assert(s.push(x).drop_last() =~= s);
}

/// A subject that no statement mentions has every field at its zero value.
proof fn lemma_absent_subject(s: Seq<Statement>, subj: Seq<char>)
    requires
        forall|i: int| 0 <= i < s.len() ==> s[i].subject@ != subj,
    ensures
        forall|pred: Seq<char>| #[trigger] last_value_of(s, subj, pred) == Seq::<char>::empty(),
        forall|pred: Seq<char>|
            #[trigger] dedup_values_of(s, subj, pred) == Seq::<Seq<char>>::empty(),
        peak_of(s, subj) == 0,
        birth_place_of(s, subj) == Seq::<char>::empty(),
        birth_date_of(s, subj) == Seq::<char>::empty(),
        year_of_gm_of(s, subj) == 0,
    decreases s.len(),
{
    if s.len() > 0 {
        lemma_absent_subject(s.drop_last(), subj);
        assert(s[s.len() - 1].subject@ != subj);
        assert(!stmt_is(s.last(), subj, lbl_rating()));
        assert(!is_gm_title(s.last(), subj));
        assert forall|pred: Seq<char>|
            #[trigger] last_value_of(s, subj, pred) == Seq::<char>::empty() by {
            assert(!stmt_is(s.last(), subj, pred));
            assert(last_value_of(s, subj, pred) == last_value_of(s.drop_last(), subj, pred));
            assert(last_value_of(s.drop_last(), subj, pred) == Seq::<char>::empty());
        }
        assert forall|pred: Seq<char>|
            #[trigger] dedup_values_of(s, subj, pred) == Seq::<Seq<char>>::empty() by {
            assert(!stmt_is(s.last(), subj, pred));
            assert(dedup_values_of(s, subj, pred) == dedup_values_of(s.drop_last(), subj, pred));
            assert(dedup_values_of(s.drop_last(), subj, pred) == Seq::<Seq<char>>::empty());
        }
    }
}

/// A blank record is the correct record for a subject with no statements yet.
proof fn lemma_blank_matches(r: PlayerInfo, s: Seq<Statement>, subj: Seq<char>)
    requires
        blank_named(r, subj),
        forall|i: int| 0 <= i < s.len() ==> s[i].subject@ != subj,
    ensures
        record_matches(r, s, subj),
{
    lemma_absent_subject(s, subj);
}

/// The subject of every statement is listed in `subjects_of`.
proof fn lemma_subject_occurs(s: Seq<Statement>, i: int)
    requires
        0 <= i < s.len(),
    ensures
        subjects_of(s).contains(s[i].subject@),
    decreases s.len(),
{
    let p = subjects_of(s.drop_last());
    let y = s.last().subject@;
    if i == s.len() - 1 {
        if !p.contains(y) {
            assert(subjects_of(s)[p.len() as int] == y);
        }
    } else {
        lemma_subject_occurs(s.drop_last(), i);
        assert(s.drop_last()[i] == s[i]);
        if !p.contains(y) {
            let j = choose|j: int| 0 <= j < p.len() && p[j] == s[i].subject@;
            assert(p.push(y)[j] == s[i].subject@);
        }
    }
}

/// Stepping the record of the statement's own subject keeps it correct.
proof fn lemma_record_step_matches(
    s: Seq<Statement>,
    x: Statement,
    r0: PlayerInfo,
    r1: PlayerInfo,
    subj: Seq<char>,
)
    requires
        record_matches(r0, s, subj),
        record_step(r0, x, r1),
        x.subject@ == subj,
    ensures
        record_matches(r1, s.push(x), subj),
{
    lemma_push_forms(s, x);
    let t = s.push(x);
    assert(last_value_of(t, subj, lbl_sport()) == (if stmt_is(x, subj, lbl_sport()) {
        x.value@
    } else {
        last_value_of(s, subj, lbl_sport())
    }));
    assert(last_value_of(t, subj, lbl_citizenship()) == (if stmt_is(x, subj, lbl_citizenship()) {
        x.value@
    } else {
        last_value_of(s, subj, lbl_citizenship())
    }));
}

/// A statement about another subject leaves a record correct.
proof fn lemma_record_copy_matches(s: Seq<Statement>, x: Statement, r: PlayerInfo, subj: Seq<char>)
    requires
        record_matches(r, s, subj),
        x.subject@ != subj,
    ensures
        record_matches(r, s.push(x), subj),
{
    lemma_push_forms(s, x);
    let t = s.push(x);
    assert(!stmt_is(x, subj, lbl_sport()));
    assert(!stmt_is(x, subj, lbl_citizenship()));
    assert(!is_gm_title(x, subj));
    assert(last_value_of(t, subj, lbl_sport()) == last_value_of(s, subj, lbl_sport()));
    assert(last_value_of(t, subj, lbl_citizenship()) == last_value_of(
        s,
        subj,
        lbl_citizenship(),
    ));
}

proof fn lemma_first_fault_none(s: Seq<Statement>)
    requires
        forall|j: int| 0 <= j < s.len() ==> #[trigger] stmt_fault(s[j]) is None,
    ensures
        first_fault(s) is None,
    decreases s.len(),
{
    if s.len() > 0 {
        assert(stmt_fault(s[0]) is None);
        assert(forall|j: int|
            0 <= j < s.drop_first().len() ==> #[trigger] stmt_fault(s.drop_first()[j]) is None);
        lemma_first_fault_none(s.drop_first());
    }
}

proof fn lemma_first_fault_at(s: Seq<Statement>, i: int, e: BuildError)
    requires
        0 <= i < s.len(),
        forall|j: int| 0 <= j < i ==> #[trigger] stmt_fault(s[j]) is None,
        stmt_fault(s[i]) == Some(e),
    ensures
        first_fault(s) == Some(e),
    decreases i,
{
    if i == 0 {
        assert(s.first() == s[0]);
    } else {
        assert(stmt_fault(s[0]) is None);
        assert(forall|j: int|
            0 <= j < i - 1 ==> #[trigger] stmt_fault(s.drop_first()[j]) is None);
        assert(s.drop_first()[i - 1] == s[i]);
        lemma_first_fault_at(s.drop_first(), i - 1, e);
    }
}

/// The fault-relevant predicate labels are pairwise distinct.
proof fn lemma_fault_labels_distinct()
    ensures
        lbl_birth_date() != lbl_title(),
        lbl_birth_date() != lbl_rating(),
        lbl_birth_date() != lbl_birth_place(),
        lbl_title() != lbl_rating(),
        lbl_title() != lbl_birth_place(),
        lbl_rating() != lbl_birth_place(),
{
    reveal_strlit("date of birth");
    reveal_strlit("title of chess person");
    reveal_strlit("Elo rating");
    reveal_strlit("place of birth");
    assert(lbl_birth_date().len() == 13);
    assert(lbl_title().len() == 21);
    assert(lbl_rating().len() == 10);
    assert(lbl_birth_place().len() == 14);
}

// ---------------------------------------------------------------------------
// Laws
// ---------------------------------------------------------------------------

/// `x` and `y` hold the same profile, field for field.
pub open spec fn records_agree(x: PlayerInfo, y: PlayerInfo) -> bool {
    &&& x.name@ == y.name@
    &&& x.birth_date@ == y.birth_date@
    &&& x.birth_place@ == y.birth_place@
    &&& x.year_of_gm == y.year_of_gm
    &&& x.chess_com_name.deep_view() == y.chess_com_name.deep_view()
    &&& x.lichess_name.deep_view() == y.lichess_name.deep_view()
    &&& x.peak_rating == y.peak_rating
    &&& x.sport_country@ == y.sport_country@
    &&& x.citizenship_country@ == y.citizenship_country@
    &&& x.images.deep_view() == y.images.deep_view()
}

/// Law: the catalog is a function of the statements alone. Any two catalogs
/// built from the same statement sequence agree record for record, field for
/// field.
pub proof fn lemma_catalog_deterministic(
    s: Seq<Statement>,
    a: Seq<PlayerInfo>,
    b: Seq<PlayerInfo>,
)
    requires
        catalog_matches(s, a),
        catalog_matches(s, b),
    ensures
        a.len() == b.len(),
        forall|k: int| 0 <= k < a.len() ==> #[trigger] records_agree(a[k], b[k]),
{
    assert forall|k: int| 0 <= k < a.len() implies #[trigger] records_agree(a[k], b[k]) by {
        assert(record_matches(a[k], s, subjects_of(s)[k]));
        assert(record_matches(b[k], s, subjects_of(s)[k]));
    }
}

/// `x` is an Elo rating statement for `subj` whose value parses to `v`.
pub open spec fn is_rating_of(x: Statement, subj: Seq<char>, v: u32) -> bool {
    stmt_is(x, subj, lbl_rating()) && parse_u32_of(x.value@) == Some(v)
}

/// Law: a subject's peak rating is the maximum of all its parsed Elo rating
/// values — an upper bound on each of them, attained by one of them unless it
/// is the zero default.
pub proof fn lemma_peak_is_max(s: Seq<Statement>, subj: Seq<char>)
    ensures
        forall|i: int, v: u32|
            0 <= i < s.len() && #[trigger] is_rating_of(s[i], subj, v) ==> v <= peak_of(s, subj),
        peak_of(s, subj) == 0 || exists|i: int|
            0 <= i < s.len() && #[trigger] is_rating_of(s[i], subj, peak_of(s, subj)),
    decreases s.len(),
{
    if s.len() > 0 {
        lemma_peak_is_max(s.drop_last(), subj);
        let p = peak_of(s.drop_last(), subj);
        let m = peak_of(s, subj);
        assert forall|i: int, v: u32|
            0 <= i < s.len() && #[trigger] is_rating_of(s[i], subj, v) implies v <= m by {
            if i < s.len() - 1 {
                assert(s.drop_last()[i] == s[i]);
                assert(v <= p);
            }
        }
        if m != 0 {
            if stmt_is(s.last(), subj, lbl_rating()) && parse_u32_of(s.last().value@) is Some
                && parse_u32_of(s.last().value@)->0 > p {
                assert(is_rating_of(s[s.len() - 1], subj, m));
            } else {
                assert(m == p);
                let i = choose|i: int|
                    0 <= i < s.drop_last().len() && #[trigger] is_rating_of(
                        s.drop_last()[i],
                        subj,
                        p,
                    );
                assert(s.drop_last()[i] == s[i]);
                assert(is_rating_of(s[i], subj, m));
            }
        }
    }
}

/// Law: folding one more statement in never lowers a peak rating (max-merge
/// is monotone).
pub proof fn lemma_peak_monotone(s: Seq<Statement>, x: Statement, subj: Seq<char>)
    ensures
        peak_of(s, subj) <= peak_of(s.push(x), subj),
{
    lemma_push_forms(s, x);
}

/// Law: the catalog holds exactly one record per distinct subject — the
/// subjects list never repeats a name.
pub proof fn lemma_subjects_distinct(s: Seq<Statement>)
    ensures
        forall|a: int, b: int|
            0 <= a < b < subjects_of(s).len() ==> subjects_of(s)[a] != subjects_of(s)[b],
    decreases s.len(),
{
    if s.len() > 0 {
        lemma_subjects_distinct(s.drop_last());
        let p = subjects_of(s.drop_last());
        let y = s.last().subject@;
        if !p.contains(y) {
            assert forall|a: int, b: int|
                0 <= a < b < subjects_of(s).len() implies subjects_of(s)[a] != subjects_of(
                s,
            )[b] by {
                if b == p.len() as int {
                    assert(p[a] != y);
                }
            }
        }
    }
}

// ---------------------------------------------------------------------------
// Executable pipeline
// ---------------------------------------------------------------------------

impl PlayerInfo {
    /// A default-valued record, as created on first sight of a new subject.
    pub fn new() -> (r: PlayerInfo)
        ensures
            blank_named(r, Seq::<char>::empty()),
    {
        let r = PlayerInfo {
            name: String::new(),
            birth_date: String::new(),
            birth_place: String::new(),
            year_of_gm: 0,
            chess_com_name: Vec::new(),
            lichess_name: Vec::new(),
            peak_rating: 0,
            sport_country: String::new(),
            citizenship_country: String::new(),
            images: Vec::new(),
        };
        proof {
            assert(r.chess_com_name.deep_view() =~= Seq::<Seq<char>>::empty());
            assert(r.lichess_name.deep_view() =~= Seq::<Seq<char>>::empty());
            assert(r.images.deep_view() =~= Seq::<Seq<char>>::empty());
        }
        r
    }
}

/// Appends `s` unless an equal string is already present.
fn push_unique(v: &mut Vec<String>, s: &String)
    ensures
        final(v).deep_view() == (if old(v).deep_view().contains(s@) {
            old(v).deep_view()
        } else {
            old(v).deep_view().push(s@)
        }),
{
    let mut k: usize = 0;
    while k < v.len()
        invariant
            0 <= k <= v@.len(),
            v@ == old(v)@,
            forall|j: int| 0 <= j < k ==> old(v)@[j]@ != s@,
        decreases v@.len() - k,
    {
        if str_eq(v[k].as_str(), s.as_str()) {
            proof {
                assert(old(v).deep_view()[k as int] == s@);
            }
            return ;
        }
        k += 1;
    }
    proof {
        assert forall|j: int| 0 <= j < old(v).deep_view().len() implies old(v).deep_view()[j]
            != s@ by {
            assert(old(v)@[j]@ != s@);
        }
    }
    v.push(s.clone());
    proof {
        assert(final(v).deep_view() =~= old(v).deep_view().push(s@));
    }
}

/// Returns the index of the record named `subject`, creating a blank record
/// for a first-seen subject.
fn find_or_insert(recs: &mut Vec<PlayerInfo>, subject: &String) -> (ri: usize)
    requires
        forall|a: int, b: int|
            0 <= a < b < old(recs)@.len() ==> old(recs)@[a].name@ != old(recs)@[b].name@,
    ensures
        ri < final(recs)@.len(),
        final(recs)@[ri as int].name@ == subject@,
        has_name(old(recs)@, subject@) ==> final(recs)@ == old(recs)@,
        !has_name(old(recs)@, subject@) ==> ri == old(recs)@.len() && final(recs)@ == old(
            recs,
        )@.push(final(recs)@[ri as int]) && blank_named(final(recs)@[ri as int], subject@),
{
    let n = recs.len();
    let mut k: usize = 0;
    while k < n
        invariant
            0 <= k <= n,
            n == recs@.len(),
            recs@ == old(recs)@,
            forall|j: int| 0 <= j < k ==> recs@[j].name@ != subject@,
        decreases n - k,
    {
        if str_eq(recs[k].name.as_str(), subject.as_str()) {
            return k;
        }
        k += 1;
    }
    proof {
        assert(!has_name(recs@, subject@));
    }
    let mut r = PlayerInfo::new();
    r.name = subject.clone();
    recs.push(r);
    recs.len() - 1
}

/// Applies one statement to the record of its own subject; reports the
/// statement's fault instead, if it has one.
fn apply_statement(rec: &mut PlayerInfo, x: &Statement) -> (fault: Option<BuildError>)
    requires
        old(rec).name@ == x.subject@,
    ensures
        match fault {
            Some(e) => stmt_fault(*x) == Some(e),
            None => stmt_fault(*x) is None && record_step(*old(rec), *x, *final(rec)),
        },
{
    proof {
        lemma_fault_labels_distinct();
    }
    if str_eq(x.predicate.as_str(), "Lichess username") {
        push_unique(&mut rec.lichess_name, &x.value);
    }
    if str_eq(x.predicate.as_str(), "Chess.com member ID") {
        push_unique(&mut rec.chess_com_name, &x.value);
    }
    if str_eq(x.predicate.as_str(), "title of chess person") && str_eq(
        x.value.as_str(),
        "Grandmaster",
    ) {
        match &x.qualifier_value {
            None => {
                return Some(BuildError::QualifierMissing);
            },
            Some(q) => {
                match parse_rfc3339_date(q.as_str()) {
                    None => {
                        return Some(BuildError::DateUnparsable);
                    },
                    Some(d) => {
                        rec.year_of_gm = d.0;
                    },
                }
            },
        }
    }
    if str_eq(x.predicate.as_str(), "Elo rating") {
        match parse_u32(x.value.as_str()) {
            None => {
                return Some(BuildError::RatingUnparsable);
            },
            Some(v) => {
                if v > rec.peak_rating {
                    rec.peak_rating = v;
                }
            },
        }
    }
    if str_eq(x.predicate.as_str(), "place of birth") {
        let mut bp = x.value.clone();
        match (&x.qualifier_label, &x.qualifier_value) {
            (Some(_), Some(q)) => {
                bp.append(", ");
                bp.append(q.as_str());
                proof {
                    reveal_strlit(", ");
                }
            },
            (Some(_), None) => {
                return Some(BuildError::QualifierMissing);
            },
            _ => {},
        }
        rec.birth_place = bp;
    }
    if str_eq(x.predicate.as_str(), "date of birth") {
        match parse_rfc3339_date(x.value.as_str()) {
            None => {
                return Some(BuildError::DateUnparsable);
            },
            Some(d) => {
                rec.birth_date = format_date(d.0, d.1, d.2);
            },
        }
    }
    if str_eq(x.predicate.as_str(), "country for sport") {
        rec.sport_country = x.value.clone();
    }
    if str_eq(x.predicate.as_str(), "country of citizenship") {
        rec.citizenship_country = x.value.clone();
    }
    if str_eq(x.predicate.as_str(), "image") {
        push_unique(&mut rec.images, &x.value);
    }
    None
}

/// Folds a statement dump into the player catalog: one record per distinct
/// subject, in first-occurrence order. The first faulty statement aborts the
/// whole run with its fault.
pub fn build_catalog(stmts: &Vec<Statement>) -> (r: Result<Vec<PlayerInfo>, BuildError>)
    ensures
        r matches Ok(recs) ==> first_fault(stmts@) is None && catalog_matches(stmts@, recs@),
        r matches Err(e) ==> first_fault(stmts@) == Some(e),
{
    let mut recs: Vec<PlayerInfo> = Vec::new();
    let mut i: usize = 0;
    proof {
        assert(stmts@.take(0) =~= Seq::<Statement>::empty());
    }
    while i < stmts.len()
        invariant
            0 <= i <= stmts@.len(),
            forall|j: int| 0 <= j < i ==> #[trigger] stmt_fault(stmts@[j]) is None,
            catalog_matches(stmts@.take(i as int), recs@),
            forall|a: int, b: int|
                0 <= a < b < recs@.len() ==> recs@[a].name@ != recs@[b].name@,
        decreases stmts@.len() - i,
    {
        let ghost pre = stmts@.take(i as int);
        let ghost recs0 = recs@;
        let x = &stmts[i];
        proof {
            assert(stmts@.take(i + 1) =~= pre.push(*x));
        }
        let ri = find_or_insert(&mut recs, &x.subject);
        let ghost recs1 = recs@;
        let ghost subj = x.subject@;
        proof {
            if has_name(recs0, subj) {
                let k = choose|k: int| 0 <= k < recs0.len() && recs0[k].name@ == subj;
                assert(record_matches(recs0[k], pre, subjects_of(pre)[k]));
                assert(subjects_of(pre)[k] == recs0[k].name@);
                assert(subjects_of(pre).contains(subj));
                assert(recs1 == recs0);
                // ri names subj, and names are distinct, so ri is the record for subj
                assert(record_matches(recs1[ri as int], pre, subjects_of(pre)[ri as int]));
            } else {
                // subj is fresh: it occurs in no earlier statement
                if subjects_of(pre).contains(subj) {
                    let k = choose|k: int|
                        0 <= k < subjects_of(pre).len() && subjects_of(pre)[k] == subj;
                    assert(record_matches(recs0[k], pre, subjects_of(pre)[k]));
                    assert(recs0[k].name@ == subj);
                    assert(false);
                }
                assert forall|ii: int| 0 <= ii < pre.len() implies pre[ii].subject@ != subj by {
                    if pre[ii].subject@ == subj {
                        lemma_subject_occurs(pre, ii);
                    }
                }
                lemma_blank_matches(recs1[ri as int], pre, subj);
            }
        }
        let fault = apply_statement(&mut recs[ri], x);
        let ghost recs2 = recs@;
        if let Some(e) = fault {
            proof {
                lemma_first_fault_at(stmts@, i as int, e);
            }
            return Err(e);
        }
        proof {
            let t = pre.push(*x);
            assert(recs2 == recs1.update(ri as int, recs2[ri as int]));
            let subjects_pre = subjects_of(pre);
            lemma_push_forms(pre, *x);
            if has_name(recs0, subj) {
                assert(subjects_pre.contains(subj));
                assert(subjects_of(t) == subjects_pre);
                assert(recs2.len() == subjects_of(t).len());
                assert forall|k: int| 0 <= k < recs2.len() implies #[trigger] record_matches(
                    recs2[k],
                    t,
                    subjects_of(t)[k],
                ) by {
                    if k == ri as int {
                        lemma_record_step_matches(
                            pre,
                            *x,
                            recs1[ri as int],
                            recs2[ri as int],
                            subj,
                        );
                        assert(subjects_of(t)[k] == recs1[ri as int].name@);
                    } else {
                        assert(record_matches(recs1[k], pre, subjects_pre[k]));
                        assert(subjects_pre[k] == recs1[k].name@);
                        assert(recs1[k].name@ != recs1[ri as int].name@);
                        lemma_record_copy_matches(pre, *x, recs1[k], subjects_pre[k]);
                    }
                }
            } else {
                assert(!subjects_pre.contains(subj));
                assert(subjects_of(t) == subjects_pre.push(subj));
                assert(recs1 == recs0.push(recs1[ri as int]));
                assert(recs2.len() == subjects_of(t).len());
                assert forall|k: int| 0 <= k < recs2.len() implies #[trigger] record_matches(
                    recs2[k],
                    t,
                    subjects_of(t)[k],
                ) by {
                    if k == ri as int {
                        lemma_record_step_matches(
                            pre,
                            *x,
                            recs1[ri as int],
                            recs2[ri as int],
                            subj,
                        );
                        assert(subjects_of(t)[k] == subj);
                    } else {
                        assert(record_matches(recs0[k], pre, subjects_pre[k]));
                        assert(subjects_pre[k] == recs0[k].name@);
                        assert(recs0[k].name@ != subj);
                        lemma_record_copy_matches(pre, *x, recs0[k], subjects_pre[k]);
                        assert(recs2[k] == recs0[k]);
                        assert(subjects_of(t)[k] == subjects_pre[k]);
                    }
                }
                // distinctness: the new name is fresh
                assert forall|a: int, b: int|
                    0 <= a < b < recs2.len() implies recs2[a].name@ != recs2[b].name@ by {
                    if b == ri as int {
                        assert(recs2[a].name@ == recs0[a].name@);
                        assert(recs2[b].name@ == subj);
                    }
                }
            }
            // the record step preserves the name, so distinctness carries over
            assert forall|a: int, b: int|
                0 <= a < b < recs2.len() implies recs2[a].name@ != recs2[b].name@ by {
                assert(recs2[a].name@ == recs1[a].name@);
                assert(recs2[b].name@ == recs1[b].name@);
            }
        }
        i += 1;
    }
    proof {
        assert(stmts@.take(i as int) =~= stmts@);
        lemma_first_fault_none(stmts@);
    }
    Ok(recs)
}

} // verus!
