use dkp_bot::amo::{
    page_status, AmoCityClient, AmoFormatClient, CustomField, Embedded, FlexibleType, Lead, LeadCollector, Leads, Link, Links,
    PageStatus, PageStep, Val, CITY_PROJECT, FORMAT_PROJECT,
};
use dkp_bot::error::{DataFault, Error};
use dkp_bot::notify::Email;
use dkp_bot::pipeline::{transfer_funnels, Embedded as PipelineEmbedded, Funnel, Pipeline};
use dkp_bot::profit::{parse_house, registration_time, Attrs, ProfitData, ProfitRecord, ProfitbaseClient};

fn profit_client() -> ProfitbaseClient {
    ProfitbaseClient::new("pb18549", "key", CITY_PROJECT)
}

fn city_client() -> dkp_bot::amo::AmoClient {
    AmoCityClient::new("dnscity", "token", profit_client())
}

fn field(id: u64, name: &str, value: FlexibleType, enum_id: Option<u64>) -> CustomField {
    CustomField { field_id: id, field_name: name.to_string(), values: vec![Val { value, enum_id }] }
}

fn dkp_lead(id: u64, extra: Vec<CustomField>) -> Lead {
    let mut fields = vec![field(1631153, "Тип договора", FlexibleType::Str("ДКП".to_string()), Some(4661181))];
    fields.extend(extra);
    Lead { id, name: "lead".to_string(), created_at: 0, custom_fields_values: fields }
}

fn page(leads: Vec<Lead>, next: Option<&str>) -> Leads {
    Leads {
        _links: Links { next: next.map(|h| Link { href: h.to_string() }) },
        _embedded: Embedded { leads },
    }
}

fn property(number: &str, house: &str, sold: Option<&str>, booked: Option<&str>) -> ProfitData {
    ProfitData {
        number: number.to_string(),
        property_type: "property".to_string(),
        house_name: house.to_string(),
        attributes: Attrs { facing: Some("white box".to_string()) },
        sold_at: sold.map(|s| s.to_string()),
        booked_at: booked.map(|s| s.to_string()),
    }
}

#[test]
fn gen_correct_base_url() {
    let client = city_client();
    let url = client.base_url();
    assert_eq!("https://dnscity.amocrm.ru/api/v4/", url);
}

#[test]
fn base_url() {
    let client = profit_client();
    let url = client.base_url();
    assert_eq!("https://pb18549.profitbase.ru/api/v4/json", url);
}

#[test]
fn leads_and_detail_urls() {
    let client = city_client();
    assert_eq!(
        client.leads_url(65830426),
        "https://dnscity.amocrm.ru/api/v4/leads?filter[statuses][0][pipeline_id]=10192498&filter[statuses][0][status_id]=65830426"
    );
    assert_eq!(client.pipeline_url(), "https://dnscity.amocrm.ru/api/v4/leads/pipelines/10192498");
    let pb = profit_client();
    assert_eq!(pb.auth_url(), "https://pb18549.profitbase.ru/api/v4/json/authentication");
    assert_eq!(pb.deal_url(26835973, "tok"), "https://pb18549.profitbase.ru/api/v4/json/property/deal/26835973?access_token=tok");
}

#[test]
fn mailer_test_receivers() {
    let receivers = Email::get_receivers("Иван:ivan@example.com;Пётр:petr@example.com");
    assert_ne!(receivers.len(), 0);
    assert_eq!(
        receivers,
        vec![
            ("Иван".to_string(), "ivan@example.com".to_string()),
            ("Пётр".to_string(), "petr@example.com".to_string())
        ]
    );
}

#[test]
fn mod_test_receivers() {
    let email = Email::new("ops:ops@example.com");
    assert_ne!(email.receivers.len(), 0);
    assert_eq!(email.receivers, vec![("ops".to_string(), "ops@example.com".to_string())]);
}

#[test]
fn receivers_without_colon_use_the_entry_twice() {
    let receivers = Email::get_receivers("solo");
    assert_eq!(receivers, vec![("solo".to_string(), "solo".to_string())]);
}

#[test]
fn house_name_with_delimiter() {
    assert_eq!(parse_house("Дом№5"), 5);
}

#[test]
fn house_name_without_delimiter() {
    assert_eq!(parse_house("5"), 5);
}

#[test]
fn house_name_not_a_number() {
    assert_eq!(parse_house("abc"), -1);
    assert_eq!(parse_house("Дом№5№7"), 5);
    assert_eq!(parse_house("Дом№"), -1);
    assert_eq!(parse_house("-12"), -12);
}

#[test]
fn parse_date() {
    assert_eq!(registration_time("2025-03-12 04:38"), 1741754280);
    assert_eq!(registration_time("not a date"), 0);
}

#[test]
fn record_from_sale_time() {
    let record = ProfitRecord { status: "success".to_string(), data: vec![property("12", "Дом№3", Some("2025-03-12 04:38"), None)] };
    let d = profit_client().deal_from_record(26835973, CITY_PROJECT, &record).unwrap();
    assert_eq!(d.deal_id, 26835973);
    assert_eq!(d.project, CITY_PROJECT);
    assert_eq!(d.house, 3);
    assert_eq!(d.object, 12);
    assert_eq!(d.object_type, "property");
    assert_eq!(d.facing, "white box");
    assert_eq!(d.created_on, 1741754280);
}

#[test]
fn record_falls_back_to_booking_time() {
    let record = ProfitRecord { status: "success".to_string(), data: vec![property("7", "1", None, Some("2025-03-12 04:38"))] };
    let d = profit_client().deal_from_record(1, CITY_PROJECT, &record).unwrap();
    assert_eq!(d.created_on, 1741754280);
    assert_eq!(d.house, 1);
}

#[test]
fn record_without_any_time_fails() {
    let record = ProfitRecord { status: "success".to_string(), data: vec![property("7", "1", None, None)] };
    let e = profit_client().deal_from_record(42, CITY_PROJECT, &record).unwrap_err();
    assert!(matches!(e, Error::EnrichmentDataFailed { deal_id: 42, fault: DataFault::NoDate }));
}

#[test]
fn record_with_bad_unit_number_fails() {
    let record = ProfitRecord { status: "success".to_string(), data: vec![property("7a", "1", Some("2025-03-12 04:38"), None)] };
    let e = profit_client().deal_from_record(42, CITY_PROJECT, &record).unwrap_err();
    assert!(matches!(e, Error::EnrichmentDataFailed { deal_id: 42, fault: DataFault::UnitNumber(ref n) } if n == "7a"));
}

#[test]
fn record_with_failed_status_or_no_data() {
    let bad = ProfitRecord { status: "error".to_string(), data: vec![] };
    let e = profit_client().deal_from_record(5, CITY_PROJECT, &bad).unwrap_err();
    assert!(matches!(e, Error::EnrichmentDataFailed { deal_id: 5, fault: DataFault::Status(ref s) } if s == "error"));
    let empty = ProfitRecord { status: "success".to_string(), data: vec![] };
    let e = profit_client().deal_from_record(5, CITY_PROJECT, &empty).unwrap_err();
    assert!(matches!(e, Error::EnrichmentDataFailed { deal_id: 5, fault: DataFault::Empty }));
}

#[test]
fn unknown_property_type_maps_to_empty() {
    let mut p = property("1", "1", Some("2025-03-12 04:38"), None);
    p.property_type = "garage".to_string();
    p.attributes.facing = None;
    let record = ProfitRecord { status: "success".to_string(), data: vec![p] };
    let d = profit_client().deal_from_record(9, CITY_PROJECT, &record).unwrap();
    assert_eq!(d.object_type, "");
    assert_eq!(d.facing, "");
}

#[test]
fn extract_keeps_contract_leads_only() {
    let client = city_client();
    let other = Lead {
        id: 2,
        name: "x".to_string(),
        created_at: 0,
        custom_fields_values: vec![field(1631153, "Тип договора", FlexibleType::Str("ДДУ".to_string()), Some(1))],
    };
    let leads = page(
        vec![
            dkp_lead(1, vec![field(1635059, "Срок", FlexibleType::Int(45), None)]),
            other,
            dkp_lead(3, vec![field(0, "ЖК", FlexibleType::Str(CITY_PROJECT.to_string()), None)]),
        ],
        None,
    );
    let deals = client.extract_dkp_deals(&leads);
    assert_eq!(deals.len(), 2);
    assert_eq!((deals[0].deal_id, deals[0].days_limit, deals[0].project.as_str()), (1, 45, FORMAT_PROJECT));
    assert_eq!((deals[1].deal_id, deals[1].days_limit, deals[1].project.as_str()), (3, 60, CITY_PROJECT));
}

#[test]
fn days_limit_falls_back_when_unparsable() {
    let client = city_client();
    let leads = page(
        vec![
            dkp_lead(1, vec![field(1635059, "Срок", FlexibleType::Str("soon".to_string()), None)]),
            dkp_lead(2, vec![field(1635059, "Срок", FlexibleType::Str("90".to_string()), None)]),
            dkp_lead(3, vec![field(1635059, "Срок", FlexibleType::Int(1 << 40), None)]),
        ],
        None,
    );
    let deals = client.extract_dkp_deals(&leads);
    assert_eq!(deals.iter().map(|d| d.days_limit).collect::<Vec<_>>(), vec![30, 90, 30]);
}

#[test]
fn format_tenant_has_one_project() {
    let client = AmoFormatClient::new("format", "t", ProfitbaseClient::new("pb2", "k", FORMAT_PROJECT));
    let lead = Lead {
        id: 8,
        name: "l".to_string(),
        created_at: 0,
        custom_fields_values: vec![field(763071, "Тип договора", FlexibleType::Str("ДКП".to_string()), Some(1254335))],
    };
    let deals = client.extract_dkp_deals(&page(vec![lead], None));
    assert_eq!(deals.len(), 1);
    assert_eq!((deals[0].days_limit, deals[0].project.as_str()), (30, FORMAT_PROJECT));
}

#[test]
fn val_to_str_reads_text_and_numbers() {
    let lead = dkp_lead(1, vec![field(5, "ЖК", FlexibleType::Int(-17), None)]);
    assert_eq!(lead.val_to_str("ЖК"), "-17");
    assert_eq!(lead.val_to_str("Тип договора"), "ДКП");
    assert_eq!(lead.val_to_str("missing"), "");
    assert_eq!(FlexibleType::Int(i64::MIN).to_text(), i64::MIN.to_string());
}

#[test]
fn collector_follows_links_up_to_the_cap() {
    let client = city_client();
    let mut c = LeadCollector::new(2);
    let step = c.take_page(&page(vec![dkp_lead(1, vec![])], Some("https://next/2")), &client);
    assert!(matches!(step, PageStep::Next(ref h) if h == "https://next/2"));
    let step = c.take_page(&page(vec![dkp_lead(2, vec![])], Some("https://next/3")), &client);
    assert!(matches!(step, PageStep::TooManyPages));
    assert_eq!(c.deals.iter().map(|d| d.deal_id).collect::<Vec<_>>(), vec![1, 2]);
    let mut d = LeadCollector::new(5);
    assert!(matches!(d.take_page(&page(vec![], None), &client), PageStep::Done));
}

#[test]
fn page_statuses() {
    assert_eq!(page_status(204, true), PageStatus::NoContent);
    assert_eq!(page_status(204, false), PageStatus::Failure);
    assert_eq!(page_status(200, false), PageStatus::Success);
    assert_eq!(page_status(401, true), PageStatus::Failure);
}

#[test]
fn funnels_by_name() {
    let p = Pipeline {
        _embedded: PipelineEmbedded {
            statuses: vec![
                Funnel { id: 1, name: "Передача ключей".to_string() },
                Funnel { id: 2, name: "Сделка".to_string() },
                Funnel { id: 3, name: "передача".to_string() },
            ],
        },
    };
    assert_eq!(transfer_funnels(&p, "Передача"), vec![1]);
    assert_eq!(transfer_funnels(&p, ""), vec![1, 2, 3]);
}
