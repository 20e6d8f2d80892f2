//! The CRM: its lead listing, and the deal candidates read from it.
use vstd::prelude::*;
use vstd::string::*;
use crate::find::{first_index, lemma_first_index, lemma_first_index_is};
use crate::profit::ProfitbaseClient;
use crate::text::{i32_of, int_text, i64_text, parse_i32, same_text};

verus! {

/// A custom attribute's value: the CRM sends text or a number.
#[derive(Debug, Clone)]
pub enum FlexibleType {
    Str(String),
    Int(i64),
}

#[derive(Debug, Clone)]
pub struct Val {
    pub value: FlexibleType,
    pub enum_id: Option<u64>,
}

#[derive(Debug, Clone)]
pub struct CustomField {
    pub field_id: u64,
    pub field_name: String,
    pub values: Vec<Val>,
}

#[derive(Debug, Clone)]
pub struct Lead {
    pub id: u64,
    pub name: String,
    pub created_at: i64,
    pub custom_fields_values: Vec<CustomField>,
}

#[derive(Debug, Clone)]
pub struct Link {
    pub href: String,
}

#[derive(Debug, Clone)]
pub struct Links {
    pub next: Option<Link>,
}

#[derive(Debug, Clone)]
pub struct Embedded {
    pub leads: Vec<Lead>,
}

/// One page of the lead listing.
#[derive(Debug, Clone)]
pub struct Leads {
    pub _links: Links,
    pub _embedded: Embedded,
}

/// A deal that the CRM lists as active, with its days limit.
#[derive(Debug, Clone)]
pub struct Deal {
    pub deal_id: u64,
    pub days_limit: i32,
    pub project: String,
}

pub struct DealView {
    pub deal_id: u64,
    pub days_limit: i32,
    pub project: Seq<char>,
}

impl View for Deal {
    type V = DealView;

    open spec fn view(&self) -> DealView {
        DealView { deal_id: self.deal_id, days_limit: self.days_limit, project: self.project@ }
    }
}

/// Where a tenant keeps what the listing is read by: the contract-type
/// attribute and the value that marks a sale, the days-limit attribute, and
/// the attribute naming the project with the defaults of each project.
#[derive(Debug, Clone)]
pub struct LeadMapping {
    pub contract_field_id: u64,
    pub contract_enum_id: u64,
    pub days_limit_field_id: u64,
    pub project_field_name: String,
    pub main_project: String,
    pub main_default_days: i32,
    pub other_project: String,
    pub other_default_days: i32,
}

/// The text of a value.
pub open spec fn flex_text(v: FlexibleType) -> Seq<char> {
    match v {
        FlexibleType::Str(s) => s@,
        FlexibleType::Int(n) => int_text(n as int),
    }
}

/// The days count a value gives, if it is an `i32`.
pub open spec fn flex_days(v: FlexibleType) -> Option<i32> {
    match v {
        FlexibleType::Str(s) => i32_of(s@),
        FlexibleType::Int(n) => if i32::MIN <= n <= i32::MAX {
            Some(n as i32)
        } else {
            None
        },
    }
}

pub open spec fn named(name: Seq<char>) -> spec_fn(CustomField) -> bool {
    |f: CustomField| f.field_name@ == name
}

pub open spec fn with_id(id: u64) -> spec_fn(CustomField) -> bool {
    |f: CustomField| f.field_id == id
}

/// The text of the first value of the first attribute called `name`, or
/// the empty text.
pub open spec fn lead_text(lead: Lead, name: Seq<char>) -> Seq<char> {
    let fields = lead.custom_fields_values@;
    let k = first_index(fields, named(name));
    if k < fields.len() && fields[k].values@.len() > 0 {
        flex_text(fields[k].values@[0].value)
    } else {
        ""@
    }
}

/// Whether a lead carries the contract-type value that marks a sale.
pub open spec fn is_dkp(lead: Lead, m: LeadMapping) -> bool {
    exists|i: int, j: int|
        0 <= i < lead.custom_fields_values@.len() && 0 <= j < lead.custom_fields_values@[i].values@.len()
            && #[trigger] lead.custom_fields_values@[i].values@[j].enum_id == Some(m.contract_enum_id)
            && lead.custom_fields_values@[i].field_id == m.contract_field_id
}

/// Whether a lead's project attribute names the tenant's main project.
pub open spec fn in_main_project(lead: Lead, m: LeadMapping) -> bool {
    lead_text(lead, m.project_field_name@) == m.main_project@
}

/// The days limit of a lead: the first value of its first days-limit
/// attribute, or the project's default where that is absent or no `i32`.
pub open spec fn days_of(lead: Lead, m: LeadMapping, default: i32) -> i32 {
    let fields = lead.custom_fields_values@;
    let k = first_index(fields, with_id(m.days_limit_field_id));
    if k < fields.len() && fields[k].values@.len() > 0 {
        match flex_days(fields[k].values@[0].value) {
            Some(v) => v,
            None => default,
        }
    } else {
        default
    }
}

pub open spec fn candidate_of(lead: Lead, m: LeadMapping) -> DealView {
    if in_main_project(lead, m) {
        DealView { deal_id: lead.id, days_limit: days_of(lead, m, m.main_default_days), project: m.main_project@ }
    } else {
        DealView { deal_id: lead.id, days_limit: days_of(lead, m, m.other_default_days), project: m.other_project@ }
    }
}

/// The candidates of the leads that mark a sale, in the order listed.
pub open spec fn candidates(leads: Seq<Lead>, m: LeadMapping) -> Seq<DealView>
    decreases leads.len(),
{
    if leads.len() == 0 {
        Seq::empty()
    } else if is_dkp(leads.last(), m) {
        candidates(leads.drop_last(), m).push(candidate_of(leads.last(), m))
    } else {
        candidates(leads.drop_last(), m)
    }
}

pub open spec fn views(deals: Seq<Deal>) -> Seq<DealView> {
    deals.map_values(|d: Deal| d@)
}

impl Deal {
    /// A copy of this candidate.
    pub fn duplicate(&self) -> (r: Deal)
        ensures
            r@ == self@,
    {
        Deal { deal_id: self.deal_id, days_limit: self.days_limit, project: self.project.clone() }
    }
}

impl FlexibleType {
    /// The value as text.
    pub fn to_text(&self) -> (r: String)
        ensures
            r@ == flex_text(*self),
    {
        match self {
            FlexibleType::Str(s) => String::from_str(s.as_str()),
            FlexibleType::Int(n) => i64_text(*n),
        }
    }

    /// The value as a days count, if it is an `i32`.
    pub fn to_days(&self) -> (r: Option<i32>)
        ensures
            r == flex_days(*self),
    {
        match self {
            FlexibleType::Str(s) => parse_i32(s.as_str()),
            FlexibleType::Int(n) => if *n >= -2147483648 && *n <= 2147483647 {
                Some(*n as i32)
            } else {
                None
            },
        }
    }
}

/// Index of the first attribute called `name`, or the count of attributes.
fn field_named(fields: &Vec<CustomField>, name: &str) -> (r: usize)
    ensures
        r == first_index(fields@, named(name@)),
{
    let mut i: usize = 0;
    while i < fields.len()
        invariant
            i <= fields.len(),
            forall|j: int| 0 <= j < i ==> !named(name@)(#[trigger] fields@[j]),
        decreases fields.len() - i,
    {
        if same_text(fields[i].field_name.as_str(), name) {
            proof {
                lemma_first_index_is(fields@, named(name@), i as int);
            }
            return i;
        }
        i = i + 1;
    }
    proof {
        lemma_first_index_is(fields@, named(name@), i as int);
    }
    i
}

/// Index of the first attribute with id `id`, or the count of attributes.
fn field_with_id(fields: &Vec<CustomField>, id: u64) -> (r: usize)
    ensures
        r == first_index(fields@, with_id(id)),
{
    let mut i: usize = 0;
    while i < fields.len()
        invariant
            i <= fields.len(),
            forall|j: int| 0 <= j < i ==> !with_id(id)(#[trigger] fields@[j]),
        decreases fields.len() - i,
    {
        if fields[i].field_id == id {
            proof {
                lemma_first_index_is(fields@, with_id(id), i as int);
            }
            return i;
        }
        i = i + 1;
    }
    proof {
        lemma_first_index_is(fields@, with_id(id), i as int);
    }
    i
}

impl Lead {
    /// The text of the attribute called `field_name`: its first value, or
    /// the empty text where the lead has no such attribute or it is empty.
    pub fn val_to_str(&self, field_name: &str) -> (r: String)
        ensures
            r@ == lead_text(*self, field_name@),
    {
        let k = field_named(&self.custom_fields_values, field_name);
        proof {
            lemma_first_index(self.custom_fields_values@, named(field_name@));
        }
        if k < self.custom_fields_values.len() && self.custom_fields_values[k].values.len() > 0 {
            self.custom_fields_values[k].values[0].value.to_text()
        } else {
            String::from_str("")
        }
    }

    /// Whether the lead carries the contract-type value that marks a sale.
    pub fn is_dkp(&self, m: &LeadMapping) -> (r: bool)
        ensures
            r == is_dkp(*self, *m),
    {
        let fields = &self.custom_fields_values;
        let mut i: usize = 0;
        while i < fields.len()
            invariant
                fields@ == self.custom_fields_values@,
                i <= fields.len(),
                forall|a: int, b: int|
                    0 <= a < i && 0 <= b < fields@[a].values@.len() && fields@[a].field_id == m.contract_field_id
                        ==> #[trigger] fields@[a].values@[b].enum_id != Some(m.contract_enum_id),
            decreases fields.len() - i,
        {
            if fields[i].field_id == m.contract_field_id {
                let values = &fields[i].values;
                let mut j: usize = 0;
                while j < values.len()
                    invariant
                        fields@ == self.custom_fields_values@,
                        i < fields.len(),
                        fields@[i as int].field_id == m.contract_field_id,
                        values == fields@[i as int].values,
                        j <= values.len(),
                        forall|b: int| 0 <= b < j ==> #[trigger] values@[b].enum_id != Some(m.contract_enum_id),
                    decreases values.len() - j,
                {
                    if values[j].enum_id == Some(m.contract_enum_id) {
                        proof {
                            let ii = i as int;
                            let jj = j as int;
                            assert(self.custom_fields_values@[ii].field_id == m.contract_field_id);
                            assert(0 <= jj < self.custom_fields_values@[ii].values@.len());
                            assert(self.custom_fields_values@[ii].values@[jj].enum_id == Some(m.contract_enum_id));
                            assert(is_dkp(*self, *m));
                        }
                        return true;
                    }
                    j = j + 1;
                }
            }
            i = i + 1;
        }
        false
    }

    /// The days limit the lead gives, or `default`.
    pub fn days_limit(&self, m: &LeadMapping, default: i32) -> (r: i32)
        ensures
            r == days_of(*self, *m, default),
    {
        let k = field_with_id(&self.custom_fields_values, m.days_limit_field_id);
        proof {
            lemma_first_index(self.custom_fields_values@, with_id(m.days_limit_field_id));
        }
        if k < self.custom_fields_values.len() && self.custom_fields_values[k].values.len() > 0 {
            match self.custom_fields_values[k].values[0].value.to_days() {
                Some(v) => v,
                None => default,
            }
        } else {
            default
        }
    }

    /// The deal candidate this lead stands for.
    pub fn to_deal(&self, m: &LeadMapping) -> (r: Deal)
        ensures
            r@ == candidate_of(*self, *m),
    {
        let raw = self.val_to_str(m.project_field_name.as_str());
        let main = raw == m.main_project;
        let project = if main {
            String::from_str(m.main_project.as_str())
        } else {
            String::from_str(m.other_project.as_str())
        };
        let default = if main {
            m.main_default_days
        } else {
            m.other_default_days
        };
        Deal { deal_id: self.id, days_limit: self.days_limit(m, default), project }
    }
}

/// The deal candidates of the leads that mark a sale, in the order listed.
pub fn extract_candidates(leads: &Vec<Lead>, m: &LeadMapping) -> (r: Vec<Deal>)
    ensures
        views(r@) == candidates(leads@, *m),
{
    let mut out: Vec<Deal> = Vec::new();
    let mut i: usize = 0;
    while i < leads.len()
        invariant
            i <= leads.len(),
            views(out@) =~= candidates(leads@.subrange(0, i as int), *m),
        decreases leads.len() - i,
    {
        proof {
            assert(leads@.subrange(0, i + 1).drop_last() =~= leads@.subrange(0, i as int));
            assert(leads@.subrange(0, i + 1).last() == leads@[i as int]);
        }
        if leads[i].is_dkp(m) {
            let d = leads[i].to_deal(m);
            out.push(d);
        }
        i = i + 1;
    }
    proof {
        assert(leads@.subrange(0, leads@.len() as int) =~= leads@);
    }
    out
}

/// A client of one CRM account: where it is, the pipeline it watches, how
/// its leads are read, and the inventory account that details its deals.
#[derive(Debug, Clone)]
pub struct AmoClient {
    pub account_id: String,
    pub token: String,
    pub pipeline_id: i64,
    pub mapping: LeadMapping,
    pub profitbase_client: ProfitbaseClient,
}

/// The text `https://<account>.amocrm.ru/api/v4/`.
pub open spec fn amo_base(account_id: Seq<char>) -> Seq<char> {
    "https://"@ + account_id + ".amocrm.ru/api/v4/"@
}

impl AmoClient {
    pub fn new(account_id: &str, token: &str, pipeline_id: i64, mapping: LeadMapping, profitbase_client: ProfitbaseClient) -> (r: AmoClient)
        ensures
            r.account_id@ == account_id@,
            r.token@ == token@,
            r.pipeline_id == pipeline_id,
            r.mapping == mapping,
            r.profitbase_client == profitbase_client,
    {
        AmoClient {
            account_id: String::from_str(account_id),
            token: String::from_str(token),
            pipeline_id,
            mapping,
            profitbase_client,
        }
    }

    pub fn base_url(&self) -> (r: String)
        ensures
            r@ == amo_base(self.account_id@),
    {
        let mut url = String::from_str("https://");
        url.append(self.account_id.as_str());
        url.append(".amocrm.ru/api/v4/");
        url
    }

    /// The first page of the leads of funnel `funnel_id` in the pipeline.
    pub fn leads_url(&self, funnel_id: i64) -> (r: String)
        ensures
            r@ == amo_base(self.account_id@) + "leads?filter[statuses][0][pipeline_id]="@ + int_text(
                self.pipeline_id as int,
            ) + "&filter[statuses][0][status_id]="@ + int_text(funnel_id as int),
    {
        let mut url = self.base_url();
        url.append("leads?filter[statuses][0][pipeline_id]=");
        let p = i64_text(self.pipeline_id);
        url.append(p.as_str());
        url.append("&filter[statuses][0][status_id]=");
        let f = i64_text(funnel_id);
        url.append(f.as_str());
        url
    }

    /// The funnels of the pipeline.
    pub fn pipeline_url(&self) -> (r: String)
        ensures
            r@ == amo_base(self.account_id@) + "leads/pipelines/"@ + int_text(self.pipeline_id as int),
    {
        let mut url = self.base_url();
        url.append("leads/pipelines/");
        let p = i64_text(self.pipeline_id);
        url.append(p.as_str());
        url
    }

    /// The deal candidates of one page of leads.
    pub fn extract_dkp_deals(&self, leads: &Leads) -> (r: Vec<Deal>)
        ensures
            views(r@) == candidates(leads._embedded.leads@, self.mapping),
    {
        extract_candidates(&leads._embedded.leads, &self.mapping)
    }

    pub fn pipeline_id(&self) -> (r: i64)
        ensures
            r == self.pipeline_id,
    {
        self.pipeline_id
    }

    pub fn token(&self) -> (r: &str)
        ensures
            r@ == self.token@,
    {
        self.token.as_str()
    }

    pub fn profitbase_client(&self) -> (r: &ProfitbaseClient)
        ensures
            *r == self.profitbase_client,
    {
        &self.profitbase_client
    }
}

/// The first of the two projects that share a CRM account.
pub const CITY_PROJECT: &'static str = "DNS Сити";

/// The second project; it has a CRM account of its own too.
pub const FORMAT_PROJECT: &'static str = "ЖК Формат";

/// The tenant whose CRM account serves both projects, told apart by the
/// lead's residential-complex attribute.
pub struct AmoCityClient;

impl AmoCityClient {
    pub fn new(account_id: &str, token: &str, profitbase_client: ProfitbaseClient) -> (r: AmoClient)
        ensures
            r.account_id@ == account_id@,
            r.token@ == token@,
            r.pipeline_id == 10192498,
            r.mapping.contract_field_id == 1631153,
            r.mapping.contract_enum_id == 4661181,
            r.mapping.days_limit_field_id == 1635059,
            r.mapping.project_field_name@ == "ЖК"@,
            r.mapping.main_project@ == CITY_PROJECT@,
            r.mapping.main_default_days == 60,
            r.mapping.other_project@ == FORMAT_PROJECT@,
            r.mapping.other_default_days == 30,
            r.profitbase_client == profitbase_client,
    {
        let mapping = LeadMapping {
            contract_field_id: 1631153,
            contract_enum_id: 4661181,
            days_limit_field_id: 1635059,
            project_field_name: String::from_str("ЖК"),
            main_project: String::from_str(CITY_PROJECT),
            main_default_days: 60,
            other_project: String::from_str(FORMAT_PROJECT),
            other_default_days: 30,
        };
        AmoClient::new(account_id, token, 10192498, mapping, profitbase_client)
    }
}

/// The tenant whose CRM account serves the second project alone.
pub struct AmoFormatClient;

impl AmoFormatClient {
    pub fn new(account_id: &str, token: &str, profitbase_client: ProfitbaseClient) -> (r: AmoClient)
        ensures
            r.account_id@ == account_id@,
            r.token@ == token@,
            r.pipeline_id == 1983685,
            r.mapping.contract_field_id == 763071,
            r.mapping.contract_enum_id == 1254335,
            r.mapping.days_limit_field_id == 763077,
            r.mapping.main_project@ == FORMAT_PROJECT@,
            r.mapping.main_default_days == 30,
            r.mapping.other_project@ == FORMAT_PROJECT@,
            r.mapping.other_default_days == 30,
            r.profitbase_client == profitbase_client,
    {
        let mapping = LeadMapping {
            contract_field_id: 763071,
            contract_enum_id: 1254335,
            days_limit_field_id: 763077,
            project_field_name: String::from_str("ЖК"),
            main_project: String::from_str(FORMAT_PROJECT),
            main_default_days: 30,
            other_project: String::from_str(FORMAT_PROJECT),
            other_default_days: 30,
        };
        AmoClient::new(account_id, token, 1983685, mapping, profitbase_client)
    }
}

/// How an answer of the lead listing is to be taken.
#[derive(Debug, Clone, Copy, PartialEq, Eq, Structural)]
pub enum PageStatus {
    /// No leads at all: the listing is empty.
    NoContent,
    /// A page to read.
    Success,
    /// The listing failed.
    Failure,
}

/// Only the first answer may say "no content"; any other answer outside
/// 2xx, or "no content" later, fails the listing.
pub fn page_status(status: u16, first_page: bool) -> (r: PageStatus)
    ensures
        r == (if status == 204 && first_page {
            PageStatus::NoContent
        } else if 200 <= status < 300 && status != 204 {
            PageStatus::Success
        } else {
            PageStatus::Failure
        }),
{
    if status == 204 && first_page {
        PageStatus::NoContent
    } else if 200 <= status && status < 300 && status != 204 {
        PageStatus::Success
    } else {
        PageStatus::Failure
    }
}

/// What to do after a page of leads.
#[derive(Debug, Clone)]
pub enum PageStep {
    /// Fetch this page next.
    Next(String),
    /// The listing is complete.
    Done,
    /// The page cap was reached with pages left: the listing is incomplete.
    TooManyPages,
}

/// Gathers the candidates of a listing page by page, following the
/// listing's links up to a cap on the number of pages.
#[derive(Debug, Clone)]
pub struct LeadCollector {
    pub deals: Vec<Deal>,
    pub pages: usize,
    pub max_pages: usize,
}

impl LeadCollector {
    pub fn new(max_pages: usize) -> (r: LeadCollector)
        ensures
            r.deals@.len() == 0,
            r.pages == 0,
            r.max_pages == max_pages,
    {
        LeadCollector { deals: Vec::new(), pages: 0, max_pages }
    }

    /// Takes in one page and says where the listing goes on.
    pub fn take_page(&mut self, page: &Leads, client: &AmoClient) -> (r: PageStep)
        requires
            old(self).pages < usize::MAX,
        ensures
            views(final(self).deals@) == views(old(self).deals@) + candidates(page._embedded.leads@, client.mapping),
            final(self).pages == old(self).pages + 1,
            final(self).max_pages == old(self).max_pages,
            match page._links.next {
                None => r is Done,
                Some(link) => if final(self).pages < final(self).max_pages {
                    r matches PageStep::Next(h) && h@ == link.href@
                } else {
                    r is TooManyPages
                },
            },
    {
        let found = client.extract_dkp_deals(page);
        let ghost before = self.deals@;
        let mut i: usize = 0;
        while i < found.len()
            invariant
                i <= found.len(),
                views(self.deals@) =~= views(before) + views(found@.subrange(0, i as int)),
                self.pages == old(self).pages,
                self.max_pages == old(self).max_pages,
            decreases found.len() - i,
        {
            let ghost prev = self.deals@;
            let d = found[i].duplicate();
            self.deals.push(d);
            proof {
                assert(found@.subrange(0, i + 1) =~= found@.subrange(0, i as int).push(found@[i as int]));
                assert(views(prev.push(d)) =~= views(prev).push(d@));
                assert(views(found@.subrange(0, i + 1)) =~= views(found@.subrange(0, i as int)).push(found@[i as int]@));
            }
            i = i + 1;
        }
        proof {
            assert(found@.subrange(0, found@.len() as int) =~= found@);
        }
        self.pages = self.pages + 1;
        match &page._links.next {
            None => PageStep::Done,
            Some(link) => if self.pages < self.max_pages {
                PageStep::Next(String::from_str(link.href.as_str()))
            } else {
                PageStep::TooManyPages
            },
        }
    }
}

} // verus!
