use alarm_clock::fonts::{FontCatalog, Size};

#[test]
fn chooses_largest_font_that_fits() {
    let catalog = FontCatalog::default();
    assert_eq!(catalog.largest_fit("01:30", Size::new(120, 30)).unwrap().name, "banner");
    assert_eq!(catalog.largest_fit("01:30", Size::new(20, 5)).unwrap().name, "compact");
    assert!(catalog.largest_fit("01:30", Size::new(4, 1)).is_none());
}

#[test]
fn rendering_has_one_line_per_row_and_appends_per_row() {
    let catalog = FontCatalog::default();
    for (name, height, spacing) in [("banner", 5, 2), ("standard", 3, 2), ("compact", 1, 0)] {
        let font = catalog.by_name(name).unwrap();
        let a = font.render("01");
        let b = font.render(":3");
        let ab = font.render("01:3");
        assert_eq!(a.len(), height);
        assert_eq!(ab.len(), height);
        for row in 0..height {
            assert_eq!(ab[row], format!("{}{}{}", a[row], " ".repeat(spacing), b[row]));
        }
        assert_eq!(font.render("x"), font.render(" "));
    }
}
