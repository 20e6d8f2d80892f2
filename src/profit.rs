//! The inventory service: its answers, and the deal records made from them.
use vstd::prelude::*;
use vstd::string::*;
use crate::error::{DataFault, Error};
use crate::object_type::{canonical_object_type, canonical_type};
use crate::text::{i32_of, parse_i32, same_text, second_segment, second_segment_of, u64_text, int_text};

verus! {

/// Free-form attributes of a property.
#[derive(Debug, Clone)]
pub struct Attrs {
    pub facing: Option<String>,
}

/// One property of a deal, as the inventory service describes it.
#[derive(Debug, Clone)]
pub struct ProfitData {
    pub number: String,
    pub property_type: String,
    pub house_name: String,
    pub attributes: Attrs,
    pub sold_at: Option<String>,
    pub booked_at: Option<String>,
}

/// The inventory service's answer for one deal.
#[derive(Debug, Clone)]
pub struct ProfitRecord {
    pub status: String,
    pub data: Vec<ProfitData>,
}

/// A deal record ready to be stored. `created_on` counts seconds since
/// 1970-01-01 00:00 of the registration time as written, without a zone.
#[derive(Debug, Clone)]
pub struct DealForAdd {
    pub deal_id: u64,
    pub project: String,
    pub house: i32,
    pub object_type: String,
    pub object: i32,
    pub facing: String,
    pub days_limit: i32,
    pub created_on: i64,
}

impl DealForAdd {
    /// A copy of this record with another days limit.
    pub fn with_days_limit(&self, days_limit: i32) -> (r: DealForAdd)
        ensures
            r == (DealForAdd { days_limit, ..*self }),
    {
        DealForAdd {
            deal_id: self.deal_id,
            project: self.project.clone(),
            house: self.house,
            object_type: self.object_type.clone(),
            object: self.object,
            facing: self.facing.clone(),
            days_limit,
            created_on: self.created_on,
        }
    }
}

/// The days limit a fresh record carries until the CRM's value is set.
pub const INITIAL_DAYS_LIMIT: i32 = 30;

/// The house number in a house name: the text after the first `№` (up to
/// a second one), or the whole name without `№`; -1 when that is no number.
pub open spec fn house_of(name: Seq<char>) -> i32 {
    match i32_of(second_segment(name, '№')) {
        Some(v) => v,
        None => -1i32,
    }
}

/// The registration time as given: the sale time, else the booking time.
pub open spec fn registration_text(p: ProfitData) -> Option<Seq<char>> {
    match p.sold_at {
        Some(s) => Some(s@),
        None => match p.booked_at {
            Some(s) => Some(s@),
            None => None,
        },
    }
}

pub open spec fn facing_of(p: ProfitData) -> Seq<char> {
    match p.attributes.facing {
        Some(f) => f@,
        None => ""@,
    }
}

/// The format of registration times, once the zone is appended.
pub open spec fn date_format() -> Seq<char> {
    "%Y-%m-%d %H:%M %z"@
}

/// The registration time in seconds, 0 where the text is no valid time.
pub open spec fn registration_seconds(text: Seq<char>) -> i64 {
    match parsed_seconds(text + " +0000"@, date_format()) {
        Some(v) => v,
        None => 0,
    }
}

/// The record made from property `p` of deal `deal_id`, registered at
/// `created_on`.
pub open spec fn built_from(d: DealForAdd, deal_id: u64, project: Seq<char>, p: ProfitData, created_on: i64) -> bool {
    &&& d.deal_id == deal_id
    &&& d.project@ == project
    &&& d.house == house_of(p.house_name@)
    &&& d.object_type@ == canonical_type(p.property_type@)
    &&& i32_of(p.number@) == Some(d.object)
    &&& d.facing@ == facing_of(p)
    &&& d.days_limit == INITIAL_DAYS_LIMIT
    &&& d.created_on == created_on
}

/// What building the record for property `p` gives: the record, or the
/// failure on an unit number that is not an integer.
pub open spec fn build_result(r: Result<DealForAdd, Error>, deal_id: u64, project: Seq<char>, p: ProfitData, created_on: i64) -> bool {
    &&& r is Ok <==> i32_of(p.number@) is Some
    &&& match r {
        Ok(d) => built_from(d, deal_id, project, p, created_on),
        Err(e) => e matches Error::EnrichmentDataFailed { deal_id: id, fault: DataFault::UnitNumber(n) } && id == deal_id && n@ == p.number@,
    }
}

/// Seconds since 1970-01-01 00:00 UTC of the moment that `text` gives in
/// `format` (which holds its zone), or none where it is no valid time in
/// that format.
pub uninterp spec fn parsed_seconds(text: Seq<char>, format: Seq<char>) -> Option<i64>;

/// Relies on chrono's `DateTime::parse_from_str`, and on `naive_utc` and
/// `timestamp` of its result: the moment depends on the text and format
/// alone, and an unreadable text gives an error, not a panic.
#[verifier::external_body]
fn parse_date_time(text: &str, format: &str) -> (r: Option<i64>)
    ensures
        r == parsed_seconds(text@, format@),
{
    match chrono::DateTime::parse_from_str(text, format) {
        Ok(d) => Some(d.naive_utc().and_utc().timestamp()),
        Err(_) => None,
    }
}

/// Reads the house number out of a house name.
pub fn parse_house(name: &str) -> (r: i32)
    ensures
        r == house_of(name@),
{
    match parse_i32(second_segment_of(name, '№')) {
        Some(v) => v,
        None => -1,
    }
}

/// Seconds of a registration time as the service writes it
/// (`2025-03-12 04:38`, in UTC); 0 where it cannot be read.
pub fn registration_time(text: &str) -> (r: i64)
    ensures
        r == registration_seconds(text@),
{
    let mut full = String::from_str(text);
    full.append(" +0000");
    match parse_date_time(full.as_str(), "%Y-%m-%d %H:%M %z") {
        Some(v) => v,
        None => 0,
    }
}

/// The record for property `p` of a deal, registered at `created_on`.
/// Fails only when the unit number is not an integer.
pub fn build_deal(deal_id: u64, project: &str, p: &ProfitData, created_on: i64) -> (r: Result<DealForAdd, Error>)
    ensures
        build_result(r, deal_id, project@, *p, created_on),
{
    let object = match parse_i32(p.number.as_str()) {
        Some(v) => v,
        None => {
            return Err(Error::EnrichmentDataFailed { deal_id, fault: DataFault::UnitNumber(p.number.clone()) });
        },
    };
    let facing = match &p.attributes.facing {
        Some(f) => String::from_str(f.as_str()),
        None => String::from_str(""),
    };
    Ok(DealForAdd {
        deal_id,
        project: String::from_str(project),
        house: parse_house(p.house_name.as_str()),
        object_type: canonical_object_type(p.property_type.as_str()),
        object,
        facing,
        days_limit: INITIAL_DAYS_LIMIT,
        created_on,
    })
}

/// A client of one inventory account; `project` names the project it was
/// set up for.
#[derive(Debug, Clone)]
pub struct ProfitbaseClient {
    pub account_id: String,
    pub api_key: String,
    pub project: String,
}

impl ProfitbaseClient {
    pub fn new(account_id: &str, api_key: &str, project: &str) -> (r: ProfitbaseClient)
        ensures
            r.account_id@ == account_id@,
            r.api_key@ == api_key@,
            r.project@ == project@,
    {
        ProfitbaseClient {
            account_id: String::from_str(account_id),
            api_key: String::from_str(api_key),
            project: String::from_str(project),
        }
    }

    pub fn base_url(&self) -> (r: String)
        ensures
            r@ == "https://"@ + self.account_id@ + ".profitbase.ru/api/v4/json"@,
    {
        let mut url = String::from_str("https://");
        url.append(self.account_id.as_str());
        url.append(".profitbase.ru/api/v4/json");
        url
    }

    /// Where the token exchange is posted.
    pub fn auth_url(&self) -> (r: String)
        ensures
            r@ == "https://"@ + self.account_id@ + ".profitbase.ru/api/v4/json"@ + "/authentication"@,
    {
        let mut url = self.base_url();
        url.append("/authentication");
        url
    }

    /// Where the detail of one deal is fetched with a token.
    pub fn deal_url(&self, deal_id: u64, token: &str) -> (r: String)
        ensures
            r@ == "https://"@ + self.account_id@ + ".profitbase.ru/api/v4/json"@ + "/property/deal/"@
                + int_text(deal_id as int) + "?access_token="@ + token@,
    {
        let mut url = self.base_url();
        url.append("/property/deal/");
        let id = u64_text(deal_id);
        url.append(id.as_str());
        url.append("?access_token=");
        url.append(token);
        url
    }

    /// Turns the service's answer for deal `deal_id` into a record of
    /// `project`.
    pub fn deal_from_record(&self, deal_id: u64, project: &str, record: &ProfitRecord) -> (r: Result<DealForAdd, Error>)
        ensures
            record.status@ != "success"@ ==> (r matches Err(Error::EnrichmentDataFailed { deal_id: id, fault: DataFault::Status(s) }) && id == deal_id && s@ == record.status@),
            record.status@ == "success"@ && record.data.len() == 0 ==> (r matches Err(Error::EnrichmentDataFailed { deal_id: id, fault: DataFault::Empty }) && id == deal_id),
            record.status@ == "success"@ && record.data.len() > 0 ==> match registration_text(record.data[0]) {
                None => (r matches Err(Error::EnrichmentDataFailed { deal_id: id, fault: DataFault::NoDate }) && id == deal_id),
                Some(t) => build_result(r, deal_id, project@, record.data[0], registration_seconds(t)),
            },
    {
        if !same_text(record.status.as_str(), "success") {
            return Err(Error::EnrichmentDataFailed { deal_id, fault: DataFault::Status(record.status.clone()) });
        }
        if record.data.len() == 0 {
            return Err(Error::EnrichmentDataFailed { deal_id, fault: DataFault::Empty });
        }
        let p = &record.data[0];
        let text = match &p.sold_at {
            Some(s) => s,
            None => match &p.booked_at {
                Some(s) => s,
                None => {
                    return Err(Error::EnrichmentDataFailed { deal_id, fault: DataFault::NoDate });
                },
            },
        };
        let created_on = registration_time(text.as_str());
        build_deal(deal_id, project, p, created_on)
    }
}

} // verus!
