use brickatlas::config::Config;
use brickatlas::rules::Rule;

fn sample() -> Config {
    Config {
        logfile: "client.txt".to_string(),
        maps: vec!["Tower".to_string()],
        map_template: "You have entered {label}.".to_string(),
        buy_regex: r"(?<buyer>.+)".to_string(),
    }
}

#[test]
fn default_config_is_empty_with_default_template() {
    let c = Config::default();
    assert_eq!(c.logfile, "");
    assert!(c.maps.is_empty());
    assert_eq!(c.map_template, "You have entered {label}");
    assert_eq!(c.buy_regex, "");
    assert!(c.rules().is_empty());
}

#[test]
fn args_override_logfile_and_extend_maps() {
    let c = Config::new_from_args(
        Some(sample()),
        Some("other.txt".to_string()),
        vec!["Strand".to_string(), "Dunes".to_string()],
    );
    assert_eq!(c.logfile, "other.txt");
    assert_eq!(c.maps, vec!["Tower".to_string(), "Strand".to_string(), "Dunes".to_string()]);
    assert_eq!(c.map_template, "You have entered {label}.");
    assert_eq!(c.buy_regex, r"(?<buyer>.+)");
}

#[test]
fn args_without_file_start_from_defaults() {
    let c = Config::new_from_args(None, None, vec!["Strand".to_string()]);
    assert_eq!(c.logfile, "");
    assert_eq!(c.maps, vec!["Strand".to_string()]);
    assert_eq!(c.map_template, "You have entered {label}");
    let kept = Config::new_from_args(Some(sample()), None, vec![]);
    assert_eq!(kept.logfile, "client.txt");
    assert_eq!(kept.maps, vec!["Tower".to_string()]);
}

#[test]
fn rules_list_maps_then_trade_rule() {
    let mut c = sample();
    c.maps.push("Dunes".to_string());
    let rules = c.rules();
    assert_eq!(rules.len(), 3);
    for (rule, map) in rules.iter().take(2).zip(["Tower", "Dunes"]) {
        match rule {
            Rule::Literal { template, label } => {
                assert_eq!(template, "You have entered {label}.");
                assert_eq!(label, map);
            }
            Rule::Pattern { .. } => panic!("expected a literal rule"),
        }
    }
    match &rules[2] {
        Rule::Pattern { expression, fields } => {
            assert_eq!(expression, r"(?<buyer>.+)");
            assert_eq!(fields, &vec!["buyer", "object", "price", "league", "location"]);
        }
        Rule::Literal { .. } => panic!("expected the trade rule"),
    }
    c.buy_regex.clear();
    assert_eq!(c.rules().len(), 2);
}
