use font_kit::properties::{Properties, Stretch, Style, Weight};

#[test]
fn default_properties_are_normal() {
    let p = Properties::new();
    assert_eq!(p.style, Style::Normal);
    assert_eq!(p.weight, Weight(400));
    assert_eq!(p.stretch, Stretch(1000));
    assert_eq!(Properties::default(), p);
}

#[test]
fn setters_chain() {
    let mut p = Properties::new();
    p.weight(Weight::bold()).style(Style::Italic).stretch(Stretch::condensed());
    assert_eq!(p.weight, Weight(700));
    assert_eq!(p.style, Style::Italic);
    assert_eq!(p.stretch, Stretch(750));
}

#[test]
fn named_weights() {
    let weights = [
        Weight::thin(),
        Weight::extra_light(),
        Weight::light(),
        Weight::normal(),
        Weight::medium(),
        Weight::semibold(),
        Weight::bold(),
        Weight::extra_bold(),
        Weight::black(),
    ];
    let values: Vec<u32> = weights.iter().map(|w| w.0).collect();
    assert_eq!(values, vec![100, 200, 300, 400, 500, 600, 700, 800, 900]);
    assert_eq!(Weight::default(), Weight::normal());
}

#[test]
fn named_stretches() {
    let stretches = [
        Stretch::ultra_condensed(),
        Stretch::extra_condensed(),
        Stretch::condensed(),
        Stretch::semi_condensed(),
        Stretch::normal(),
        Stretch::semi_expanded(),
        Stretch::expanded(),
        Stretch::extra_expanded(),
        Stretch::ultra_expanded(),
    ];
    let values: Vec<u32> = stretches.iter().map(|s| s.0).collect();
    assert_eq!(values, vec![500, 625, 750, 875, 1000, 1125, 1250, 1500, 2000]);
    assert_eq!(Stretch::default(), Stretch::normal());
    assert_eq!(Style::default(), Style::Normal);
}
