//! What is sent out about deals: receivers, rows of reports, counts and
//! message texts.
use vstd::prelude::*;
use vstd::string::*;
use crate::amo::{CITY_PROJECT, FORMAT_PROJECT};
use crate::object_type::{get_ru_object_type, ru_label};
use crate::profit::DealForAdd;
use crate::store::DealData;
use crate::text::{find_char, index_of_char, int_text, i64_text, lemma_find_char, same_text};

verus! {

/// The pieces of `s` between the occurrences of `c`.
pub open spec fn segments(s: Seq<char>, c: char) -> Seq<Seq<char>>
    decreases s.len(),
{
    let i = find_char(s, c);
    if 0 <= i < s.len() {
        seq![s.subrange(0, i)] + segments(s.subrange(i + 1, s.len() as int), c)
    } else {
        seq![s]
    }
}

/// The piece of `s` after its last `c`, or `s` without `c`.
pub open spec fn last_segment(s: Seq<char>, c: char) -> Seq<char>
    decreases s.len(),
{
    let i = find_char(s, c);
    if 0 <= i < s.len() {
        last_segment(s.subrange(i + 1, s.len() as int), c)
    } else {
        s
    }
}

/// A receiver written `name:address`: the name is the text before the
/// first `:`, the address the text after the last.
pub open spec fn receiver_of(entry: Seq<char>) -> (Seq<char>, Seq<char>) {
    (entry.subrange(0, find_char(entry, ':')), last_segment(entry, ':'))
}

pub open spec fn pair_views(v: Seq<(String, String)>) -> Seq<(Seq<char>, Seq<char>)> {
    v.map_values(|p: (String, String)| (p.0@, p.1@))
}

/// Who the mail goes to: a name and an address each.
#[derive(Debug, Clone)]
pub struct Email {
    pub receivers: Vec<(String, String)>,
}

fn after_last(s: &str, c: char) -> (r: &str)
    ensures
        r@ == last_segment(s@, c),
    decreases s@.len(),
{
    let i = index_of_char(s, c);
    proof {
        lemma_find_char(s@, c);
    }
    let n = s.unicode_len();
    if i < n {
        let rest = s.substring_char(i + 1, n);
        after_last(rest, c)
    } else {
        s
    }
}

impl Email {
    /// Reads the receivers from entries `name:address` joined by `;`.
    pub fn new(receivers: &str) -> (r: Email)
        ensures
            pair_views(r.receivers@) == segments(receivers@, ';').map_values(|e: Seq<char>| receiver_of(e)),
    {
        Email { receivers: Email::get_receivers(receivers) }
    }

    pub fn get_receivers(config: &str) -> (r: Vec<(String, String)>)
        ensures
            pair_views(r@) == segments(config@, ';').map_values(|e: Seq<char>| receiver_of(e)),
    {
        let mut out: Vec<(String, String)> = Vec::new();
        let mut rest: &str = config;
        loop
            invariant
                pair_views(out@) + segments(rest@, ';').map_values(|e: Seq<char>| receiver_of(e)) == segments(config@, ';').map_values(
                    |e: Seq<char>| receiver_of(e),
                ),
            decreases rest@.len(),
        {
            let n = rest.unicode_len();
            let i = index_of_char(rest, ';');
            proof {
                lemma_find_char(rest@, ';');
            }
            let entry = rest.substring_char(0, i);
            let j = index_of_char(entry, ':');
            proof {
                lemma_find_char(entry@, ':');
            }
            let name = String::from_str(entry.substring_char(0, j));
            let address = String::from_str(after_last(entry, ':'));
            let ghost prev = out@;
            out.push((name, address));
            let ghost tail = segments(rest@, ';').map_values(|e: Seq<char>| receiver_of(e));
            proof {
                assert(pair_views(prev.push((name, address))) =~= pair_views(prev).push(receiver_of(entry@)));
            }
            if i == n {
                proof {
                    assert(segments(rest@, ';') == seq![rest@]);
                    assert(entry@ =~= rest@);
                    assert(tail =~= seq![receiver_of(rest@)]);
                    assert(pair_views(out@) =~= pair_views(prev) + tail);
                }
                return out;
            }
            let next = rest.substring_char(i + 1, n);
            proof {
                let segs = segments(rest@, ';');
                assert(segs == seq![entry@] + segments(next@, ';'));
                assert(tail =~= seq![receiver_of(entry@)] + segments(next@, ';').map_values(|e: Seq<char>| receiver_of(e)));
                assert(pair_views(out@) + segments(next@, ';').map_values(|e: Seq<char>| receiver_of(e)) =~= pair_views(prev) + tail);
            }
            rest = next;
        }
    }
}

/// The date text of a moment, day first (`12.03.2025`), if chrono can
/// represent it.
pub uninterp spec fn day_text(seconds: i64) -> Option<Seq<char>>;

/// Relies on chrono's `DateTime::from_timestamp` and on formatting the
/// result with `%d.%m.%Y`: the text depends on the seconds alone, and there
/// is none where chrono cannot represent the moment.
#[verifier::external_body]
fn format_day(seconds: i64) -> (r: Option<String>)
    ensures
        match r {
            Some(t) => day_text(seconds) == Some(t@),
            None => day_text(seconds) is None,
        },
{
    match chrono::DateTime::from_timestamp(seconds, 0) {
        Some(d) => Some(d.naive_utc().format("%d.%m.%Y").to_string()),
        None => None,
    }
}

pub open spec fn day_or_empty(seconds: int) -> Seq<char> {
    if i64::MIN <= seconds <= i64::MAX {
        match day_text(seconds as i64) {
            Some(t) => t,
            None => ""@,
        }
    } else {
        ""@
    }
}

/// The moment by which a deal's object is to be handed over.
pub open spec fn expiry(created_on: i64, days_limit: i32) -> int {
    created_on + 86400 * days_limit
}

/// A deal as reports show it.
#[derive(Debug, Clone)]
pub struct DealInfo {
    pub project: String,
    pub house: i32,
    pub object_type: String,
    pub object: i32,
    pub facing: String,
    pub reg_date: String,
    pub exp_date: String,
}

fn day_string(seconds: i64) -> (r: String)
    ensures
        r@ == day_or_empty(seconds as int),
{
    match format_day(seconds) {
        Some(t) => t,
        None => String::from_str(""),
    }
}

fn expiry_string(created_on: i64, days_limit: i32) -> (r: String)
    ensures
        r@ == day_or_empty(expiry(created_on, days_limit)),
{
    let span = 86400i64 * (days_limit as i64);
    match created_on.checked_add(span) {
        Some(t) => day_string(t),
        None => String::from_str(""),
    }
}

pub open spec fn info_of(
    i: DealInfo,
    project: Seq<char>,
    house: i32,
    object_type: Seq<char>,
    object: i32,
    facing: Seq<char>,
    days_limit: i32,
    created_on: i64,
) -> bool {
    &&& i.project@ == project
    &&& i.house == house
    &&& i.object_type@ == ru_label(object_type)
    &&& i.object == object
    &&& i.facing@ == facing
    &&& i.reg_date@ == day_or_empty(created_on as int)
    &&& i.exp_date@ == day_or_empty(expiry(created_on, days_limit))
}

impl DealInfo {
    pub fn from_deal(d: &DealForAdd) -> (r: DealInfo)
        ensures
            info_of(r, d.project@, d.house, d.object_type@, d.object, d.facing@, d.days_limit, d.created_on),
    {
        DealInfo {
            project: d.project.clone(),
            house: d.house,
            object_type: String::from_str(get_ru_object_type(d.object_type.as_str())),
            object: d.object,
            facing: d.facing.clone(),
            reg_date: day_string(d.created_on),
            exp_date: expiry_string(d.created_on, d.days_limit),
        }
    }

    pub fn from_data(d: &DealData) -> (r: DealInfo)
        ensures
            info_of(r, d.project@, d.house, d.object_type@, d.object, d.facing@, d.days_limit, d.created_on),
    {
        DealInfo {
            project: d.project.clone(),
            house: d.house,
            object_type: String::from_str(get_ru_object_type(d.object_type.as_str())),
            object: d.object,
            facing: d.facing.clone(),
            reg_date: day_string(d.created_on),
            exp_date: expiry_string(d.created_on, d.days_limit),
        }
    }
}

/// Whether a deal's handover is due within five days of `now` (or overdue);
/// both are seconds of local time.
pub open spec fn near_deadline(d: DealData, now: i64) -> bool {
    expiry(d.created_on, d.days_limit) - now < 5 * 86400
}

pub open spec fn deadline_rows(rows: Seq<DealData>, now: i64) -> Seq<DealData>
    decreases rows.len(),
{
    if rows.len() == 0 {
        Seq::empty()
    } else if !rows.last().transfer_completed && near_deadline(rows.last(), now) {
        deadline_rows(rows.drop_last(), now).push(rows.last())
    } else {
        deadline_rows(rows.drop_last(), now)
    }
}

/// The active deals whose handover is due within five days of `now`, in
/// the order given.
pub fn search_deadline(deals: &Vec<DealData>, now: i64) -> (r: Vec<DealData>)
    ensures
        r@ == deadline_rows(deals@, now),
{
    let mut out: Vec<DealData> = Vec::new();
    let mut i: usize = 0;
    while i < deals.len()
        invariant
            i <= deals.len(),
            out@ == deadline_rows(deals@.subrange(0, i as int), now),
        decreases deals.len() - i,
    {
        proof {
            assert(deals@.subrange(0, i + 1).drop_last() =~= deals@.subrange(0, i as int));
        }
        let d = &deals[i];
        let due = (d.created_on as i128) + 86400i128 * (d.days_limit as i128) - (now as i128) < 432000i128;
        if !d.transfer_completed && due {
            out.push(d.with_state(d.days_limit, d.transfer_completed));
        }
        i = i + 1;
    }
    proof {
        assert(deals@.subrange(0, i as int) =~= deals@);
    }
    out
}

/// How many active rows of a project are of a kind.
pub open spec fn count_of(rows: Seq<DealData>, project: Seq<char>, kind: Seq<char>) -> nat
    decreases rows.len(),
{
    if rows.len() == 0 {
        0
    } else if !rows.last().transfer_completed && rows.last().project@ == project && rows.last().object_type@ == kind {
        count_of(rows.drop_last(), project, kind) + 1
    } else {
        count_of(rows.drop_last(), project, kind)
    }
}

proof fn lemma_count_bound(rows: Seq<DealData>, project: Seq<char>, kind: Seq<char>)
    ensures
        count_of(rows, project, kind) <= rows.len(),
    decreases rows.len(),
{
    if rows.len() > 0 {
        lemma_count_bound(rows.drop_last(), project, kind);
    }
}

/// Counts of active deals, by project and kind.
#[derive(Debug, Clone, Copy)]
pub struct StatNumbers {
    pub format_apartments: usize,
    pub format_pantries: usize,
    pub format_parking: usize,
    pub city_apartments: usize,
    pub city_pantries: usize,
}

fn count_rows(rows: &Vec<DealData>, project: &str, kind: &str) -> (r: usize)
    ensures
        r == count_of(rows@, project@, kind@),
{
    let mut n: usize = 0;
    let mut i: usize = 0;
    while i < rows.len()
        invariant
            i <= rows.len(),
            n == count_of(rows@.subrange(0, i as int), project@, kind@),
            n <= i,
        decreases rows.len() - i,
    {
        proof {
            assert(rows@.subrange(0, i + 1).drop_last() =~= rows@.subrange(0, i as int));
        }
        let r = &rows[i];
        if !r.transfer_completed && same_text(r.project.as_str(), project) && same_text(r.object_type.as_str(), kind) {
            n = n + 1;
        }
        i = i + 1;
    }
    proof {
        assert(rows@.subrange(0, i as int) =~= rows@);
    }
    n
}

impl StatNumbers {
    /// Counts the active deals of each project and kind that reports show.
    pub fn count(deals: &Vec<DealData>) -> (r: StatNumbers)
        ensures
            r.format_apartments == count_of(deals@, FORMAT_PROJECT@, "property"@),
            r.format_pantries == count_of(deals@, FORMAT_PROJECT@, "pantry"@),
            r.format_parking == count_of(deals@, FORMAT_PROJECT@, "parking"@),
            r.city_apartments == count_of(deals@, CITY_PROJECT@, "property"@),
            r.city_pantries == count_of(deals@, CITY_PROJECT@, "pantry"@),
    {
        StatNumbers {
            format_apartments: count_rows(deals, FORMAT_PROJECT, "property"),
            format_pantries: count_rows(deals, FORMAT_PROJECT, "pantry"),
            format_parking: count_rows(deals, FORMAT_PROJECT, "parking"),
            city_apartments: count_rows(deals, CITY_PROJECT, "property"),
            city_pantries: count_rows(deals, CITY_PROJECT, "pantry"),
        }
    }
}

/// The mail listing deals, under a header.
#[derive(Debug, Clone)]
pub struct DkpObjects {
    pub header: String,
    pub deals: Vec<DealInfo>,
}

impl DkpObjects {
    pub fn new(header: &str, deals: Vec<DealInfo>) -> (r: DkpObjects)
        ensures
            r.header@ == header@,
            r.deals@ == deals@,
    {
        DkpObjects { header: String::from_str(header), deals }
    }
}

/// The mail with the counts of active deals, under a header.
#[derive(Debug, Clone)]
pub struct DkpStat {
    pub header: String,
    pub format_apartments: usize,
    pub format_pantries: usize,
    pub format_parking: usize,
    pub city_apartments: usize,
    pub city_pantries: usize,
}

impl DkpStat {
    pub fn new(
        header: &str,
        format_apartments: usize,
        format_pantries: usize,
        format_parking: usize,
        city_apartments: usize,
        city_pantries: usize,
    ) -> (r: DkpStat)
        ensures
            r.header@ == header@,
            r.format_apartments == format_apartments,
            r.format_pantries == format_pantries,
            r.format_parking == format_parking,
            r.city_apartments == city_apartments,
            r.city_pantries == city_pantries,
    {
        DkpStat {
            header: String::from_str(header),
            format_apartments,
            format_pantries,
            format_parking,
            city_apartments,
            city_pantries,
        }
    }
}

/// The chat message about a deal the pass completed.
pub open spec fn completed_text(d: DealData) -> Seq<char> {
    "Проект: "@ + d.project@ + ", Дом №"@ + int_text(d.house as int) + ", к."@ + int_text(d.object as int) + " ("@ + ru_label(
        d.object_type@,
    ) + ") передан!"@
}

pub fn completed_message(d: &DealData) -> (r: String)
    ensures
        r@ == completed_text(*d),
{
    let mut m = String::from_str("Проект: ");
    m.append(d.project.as_str());
    m.append(", Дом №");
    let h = i64_text(d.house as i64);
    m.append(h.as_str());
    m.append(", к.");
    let o = i64_text(d.object as i64);
    m.append(o.as_str());
    m.append(" (");
    m.append(get_ru_object_type(d.object_type.as_str()));
    m.append(") передан!");
    m
}

/// The text describing a deal: where it is, what it is, when it was
/// registered and by when it is to be handed over. The finish type is told
/// for apartments only.
pub open spec fn deal_text(i: DealInfo, apartment: bool) -> Seq<char> {
    "Проект: "@ + i.project@ + "\nДом № "@ + int_text(i.house as int) + "\nТип объекта: "@ + i.object_type@ + "\n№ "@ + int_text(
        i.object as int,
    ) + "\n"@ + (if apartment {
        "Тип отделки: "@ + i.facing@ + "\n"@
    } else {
        Seq::empty()
    }) + "Дата регистрации: "@ + i.reg_date@ + "\nПередать объект до: "@ + i.exp_date@ + "\n"@
}

/// The message about a new deal.
pub fn new_deal_message(d: &DealForAdd) -> (r: String)
    ensures
        exists|i: DealInfo|
            info_of(i, d.project@, d.house, d.object_type@, d.object, d.facing@, d.days_limit, d.created_on) && r@ == deal_text(
                i,
                d.object_type@ == "property"@,
            ),
{
    let info = DealInfo::from_deal(d);
    describe(&info, same_text(d.object_type.as_str(), "property"))
}

pub fn describe(i: &DealInfo, apartment: bool) -> (r: String)
    ensures
        r@ == deal_text(*i, apartment),
{
    let mut m = String::from_str("Проект: ");
    m.append(i.project.as_str());
    m.append("\nДом № ");
    let h = i64_text(i.house as i64);
    m.append(h.as_str());
    m.append("\nТип объекта: ");
    m.append(i.object_type.as_str());
    m.append("\n№ ");
    let o = i64_text(i.object as i64);
    m.append(o.as_str());
    m.append("\n");
    if apartment {
        m.append("Тип отделки: ");
        m.append(i.facing.as_str());
        m.append("\n");
    }
    m.append("Дата регистрации: ");
    m.append(i.reg_date.as_str());
    m.append("\nПередать объект до: ");
    m.append(i.exp_date.as_str());
    m.append("\n");
    proof {
        assert(m@ =~= deal_text(*i, apartment));
    }
    m
}

} // verus!
