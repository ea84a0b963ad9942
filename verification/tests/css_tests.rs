use genine::css::Selector;
use genine::css::SimpleSelector;

#[test]
fn specificity_counts_id_class_and_tag() {
    let selector = Selector::Simple(SimpleSelector::new(
        Some("div".to_string()),
        Some("main".to_string()),
        vec!["a".to_string(), "b".to_string()],
    ));
    assert_eq!(selector.specificity(), (1, 2, 1));
}

#[test]
fn specificity_of_bare_selector_is_zero() {
    let selector = Selector::Simple(SimpleSelector::new(None, None, vec![]));
    assert_eq!(selector.specificity(), (0, 0, 0));
}

#[test]
fn specificity_tag_only() {
    let selector = Selector::Simple(SimpleSelector::new(Some("p".to_string()), None, vec![]));
    assert_eq!(selector.specificity(), (0, 0, 1));
}
