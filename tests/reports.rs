use dkp_bot::notify::{completed_message, new_deal_message, search_deadline, DealInfo, DkpObjects, DkpStat, StatNumbers};
use dkp_bot::object_type::{canonical_object_type, get_en_object_type, get_ru_object_type};
use dkp_bot::profit::DealForAdd;
use dkp_bot::store::DealData;
use dkp_bot::lookup::object_number;
use dkp_bot::text::{parse_i32, second_segment_of, u64_text};

fn data(id: u64, project: &str, kind: &str, completed: bool, days: i32) -> DealData {
    DealData {
        deal_id: id,
        project: project.to_string(),
        house: 4,
        object_type: kind.to_string(),
        object: 31,
        facing: "чистовая".to_string(),
        days_limit: days,
        transfer_completed: completed,
        created_on: 1741754280,
    }
}

#[test]
fn object_type_labels() {
    assert_eq!(get_ru_object_type("property"), "Квартира");
    assert_eq!(get_ru_object_type("pantry"), "Кладовка");
    assert_eq!(get_ru_object_type("parking"), "Машиноместо");
    assert_eq!(get_ru_object_type("other"), "");
    assert_eq!(get_en_object_type("Квартиры"), "property");
    assert_eq!(get_en_object_type("Кладовки"), "pantry");
    assert_eq!(get_en_object_type("Машиноместа"), "parking");
    assert_eq!(get_en_object_type("Дом"), "");
    assert_eq!(canonical_object_type("pantry"), "pantry");
    assert_eq!(canonical_object_type("flat"), "");
}

#[test]
fn integers_in_text() {
    assert_eq!(parse_i32("2147483647"), Some(2147483647));
    assert_eq!(parse_i32("-2147483648"), Some(-2147483648));
    assert_eq!(parse_i32("2147483648"), None);
    assert_eq!(parse_i32("+7"), Some(7));
    assert_eq!(parse_i32("-"), None);
    assert_eq!(parse_i32(""), None);
    assert_eq!(parse_i32(" 7"), None);
    assert_eq!(u64_text(0), "0");
    assert_eq!(u64_text(u64::MAX), u64::MAX.to_string());
    assert_eq!(second_segment_of("a№b№c", '№'), "b");
}

#[test]
fn deal_info_dates() {
    let info = DealInfo::from_data(&data(1, "DNS Сити", "property", false, 30));
    assert_eq!(info.reg_date, "12.03.2025");
    assert_eq!(info.exp_date, "11.04.2025");
    assert_eq!(info.object_type, "Квартира");
    let far = DealInfo::from_data(&DealData { created_on: i64::MAX, ..data(1, "p", "pantry", false, 30) });
    assert_eq!(far.exp_date, "");
}

#[test]
fn stat_counts_active_deals() {
    let deals = vec![
        data(1, "ЖК Формат", "property", false, 30),
        data(2, "ЖК Формат", "property", false, 30),
        data(3, "ЖК Формат", "pantry", false, 30),
        data(4, "ЖК Формат", "parking", true, 30),
        data(5, "DNS Сити", "property", false, 30),
        data(6, "DNS Сити", "pantry", false, 30),
        data(7, "DNS Сити", "parking", false, 30),
    ];
    let s = StatNumbers::count(&deals);
    assert_eq!(
        (s.format_apartments, s.format_pantries, s.format_parking, s.city_apartments, s.city_pantries),
        (2, 1, 0, 1, 1)
    );
}

#[test]
fn deadline_within_five_days() {
    let now = 1741754280 + 86400 * 26;
    let deals = vec![data(1, "p", "property", false, 30), data(2, "p", "property", false, 31), data(3, "p", "property", true, 1)];
    let due = search_deadline(&deals, now);
    assert_eq!(due.iter().map(|d| d.deal_id).collect::<Vec<_>>(), vec![1]);
}

#[test]
fn messages() {
    let d = data(5, "DNS Сити", "pantry", true, 30);
    assert_eq!(completed_message(&d), "Проект: DNS Сити, Дом №4, к.31 (Кладовка) передан!");
    let rec = DealForAdd {
        deal_id: 1,
        project: "DNS Сити".to_string(),
        house: 4,
        object_type: "property".to_string(),
        object: 31,
        facing: "чистовая".to_string(),
        days_limit: 30,
        created_on: 1741754280,
    };
    assert_eq!(
        new_deal_message(&rec),
        "Проект: DNS Сити\nДом № 4\nТип объекта: Квартира\n№ 31\nТип отделки: чистовая\nДата регистрации: 12.03.2025\nПередать объект до: 11.04.2025\n"
    );
}

#[test]
fn report_templates_hold_their_data() {
    let objects = DkpObjects::new("Новые", vec![]);
    assert_eq!(objects.header, "Новые");
    let stat = DkpStat::new("Итого", 1, 2, 3, 4, 5);
    assert_eq!((stat.format_apartments, stat.city_pantries), (1, 5));
}

#[test]
fn unit_number_replies() {
    assert_eq!(object_number("/31"), Some(31));
    assert_eq!(object_number("//31@dkp_bot"), Some(31));
    assert_eq!(object_number("31"), Some(31));
    assert_eq!(object_number("/abc"), None);
    assert_eq!(object_number("@31"), None);
}
