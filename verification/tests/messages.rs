use auto_fuel_price::message::format_message;
use auto_fuel_price::price::Price;
use auto_fuel_price::snapshot::PriceChange;

fn price(baht: f64) -> Price {
    Price::from_bits(baht.to_bits()).unwrap()
}

fn change(name: &str, old: f64, new: f64) -> PriceChange {
    PriceChange { name: name.to_string(), old_price: price(old), new_price: price(new) }
}

#[test]
fn format_message_decrease_uses_lod() {
    let changes = vec![change("Gasohol 95", 31.00, 30.50)];
    let message = format_message("19 มิถุนายน 2026", "05:00", &changes);
    assert!(message.starts_with("📰 แจ้งข่าวราคาน้ำมัน!!"));
    assert!(message.contains("📅 ราคาปรับขึ้น-ลง วันที่ 19 มิถุนายน 2026 เวลา 05:00 น."));
    assert!(message.contains("⛽ ▶ Gasohol 95"));
    assert!(message.contains("ปรับลด 0.50 บาท"));
    assert!(message.contains("จากราคา 31.00 บาท เป็น 30.50 บาท"));
}

#[test]
fn format_message_increase_uses_perm() {
    let changes = vec![change("Diesel B20", 32.50, 33.00)];
    let message = format_message("19 มิถุนายน 2026", "05:00", &changes);
    assert!(message.contains("⛽ ▶ Diesel B20"));
    assert!(message.contains("ปรับเพิ่ม 0.50 บาท"));
    assert!(message.contains("จากราคา 32.50 บาท เป็น 33.00 บาท"));
}

#[test]
fn format_message_separates_entries_with_blank_line() {
    let changes = vec![change("Gasohol 95", 31.00, 30.50), change("Diesel B20", 32.50, 33.00)];
    let message = format_message("", "", &changes);
    assert!(message.contains("\n\n⛽ ▶ Diesel B20"));
}

#[test]
fn format_message_omits_date_line_when_empty() {
    let changes = vec![change("Gasohol 95", 31.00, 30.50)];
    let message = format_message("", "", &changes);
    assert!(message.starts_with("📰 แจ้งข่าวราคาน้ำมัน!!"));
    assert!(!message.contains("📅"));
}

#[test]
fn the_whole_message() {
    let changes = vec![change("Gasohol 95", 31.00, 30.50), change("Diesel B20", 32.50, 33.07)];
    assert_eq!(
        format_message("19 มิถุนายน 2026", "05:00", &changes),
        "📰 แจ้งข่าวราคาน้ำมัน!!\n\
         📅 ราคาปรับขึ้น-ลง วันที่ 19 มิถุนายน 2026 เวลา 05:00 น.\n\
         \n\
         ⛽ ▶ Gasohol 95\n\
         ปรับลด 0.50 บาท\n\
         จากราคา 31.00 บาท เป็น 30.50 บาท\n\
         \n\
         ⛽ ▶ Diesel B20\n\
         ปรับเพิ่ม 0.57 บาท\n\
         จากราคา 32.50 บาท เป็น 33.07 บาท"
    );
}

#[test]
fn a_date_without_a_time() {
    assert_eq!(
        format_message("19 มิถุนายน 2026", "", &[]),
        "📰 แจ้งข่าวราคาน้ำมัน!!\n📅 ราคาปรับขึ้น-ลง วันที่ 19 มิถุนายน 2026\n\n"
    );
}

#[test]
fn a_time_without_a_date_is_left_out() {
    assert_eq!(format_message("", "05:00", &[]), "📰 แจ้งข่าวราคาน้ำมัน!!\n\n");
}

#[test]
fn a_difference_beyond_range() {
    let message = format_message("", "", &[change("a", -1.5e308, 1.5e308)]);
    let expected = format!(
        "📰 แจ้งข่าวราคาน้ำมัน!!\n\n⛽ ▶ a\nปรับเพิ่ม {:.2} บาท\nจากราคา {:.2} บาท เป็น {:.2} บาท",
        f64::INFINITY, -1.5e308, 1.5e308
    );
    assert_eq!(message, expected);
}
