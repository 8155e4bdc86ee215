use society_sim::game::Game;
use society_sim::interest_group::InterestGroup;
use society_sim::issue::Issue;
use society_sim::num::{MOOD_LIMIT, SCALE};
use society_sim::page::Page;
use society_sim::society::Society;
use society_sim::subgroup::Subgroup;

fn fixed_group(name: &str, population_ratio: i64, subgroups: Vec<Subgroup>) -> InterestGroup {
    InterestGroup {
        name: name.to_string(),
        population_ratio,
        subgroups,
        applicable_issues: Vec::new(),
    }
}

#[test]
fn ratio_sum_is_exactly_one() {
    let group = InterestGroup::new(
        "Sports".to_string(),
        800_000,
        vec![
            "Ping Pong".to_string(),
            "Tennis".to_string(),
            "Pickleball".to_string(),
        ],
    );
    let sum: i64 = group.subgroups.iter().map(|sg| sg.ratio).sum();
    assert_eq!(sum, SCALE);
    for sg in &group.subgroups {
        assert!(0 <= sg.ratio && sg.ratio <= SCALE);
        assert!(-SCALE <= sg.mood && sg.mood <= SCALE);
    }
    assert_eq!(group.subgroups.len(), 3);
    assert_eq!(group.subgroups[0].name, "Ping Pong");
    assert_eq!(group.subgroups[1].name, "Tennis");
    assert_eq!(group.subgroups[2].name, "Pickleball");
    assert!(group.applicable_issues.is_empty());
}

#[test]
fn single_subgroup_ratio_is_one() {
    let group = InterestGroup::new("Solo".to_string(), SCALE, vec!["Only".to_string()]);
    assert_eq!(group.subgroups[0].ratio, SCALE);
}

#[test]
fn weighted_mood_of_empty_group_is_zero() {
    let group = InterestGroup::new("Nobody".to_string(), SCALE, Vec::new());
    assert_eq!(group.weighted_mood(), 0);
    assert_eq!(group.population_weighted_mood(), 0);
}

#[test]
fn population_weighted_mood_is_exact_product() {
    let group = fixed_group(
        "Readers",
        700_000,
        vec![
            Subgroup::new("Novels".to_string(), 600_000, 500_000),
            Subgroup::new("Poetry".to_string(), 400_000, -250_000),
        ],
    );
    let wm = group.weighted_mood();
    assert_eq!(wm, 600_000i128 * 500_000 + 400_000i128 * (-250_000));
    assert_eq!(group.population_weighted_mood(), 700_000i128 * wm);
}

#[test]
fn overall_mood_is_sum_and_order_independent() {
    let make = |flip: bool| {
        let a = fixed_group(
            "A",
            500_000,
            vec![Subgroup::new("A1".to_string(), SCALE, 300_000)],
        );
        let b = fixed_group(
            "B",
            800_000,
            vec![Subgroup::new("B1".to_string(), SCALE, -100_000)],
        );
        if flip {
            Society::new(vec![b, a], Vec::new())
        } else {
            Society::new(vec![a, b], Vec::new())
        }
    };
    let fwd = make(false);
    let rev = make(true);
    let expected: i128 =
        500_000i128 * (1_000_000i128 * 300_000) + 800_000i128 * (1_000_000i128 * -100_000);
    assert_eq!(fwd.overall_mood(), expected);
    assert_eq!(rev.overall_mood(), expected);
}

#[test]
fn unmatched_effects_leave_moods_but_record_issue() {
    let group = fixed_group(
        "Farmers",
        SCALE,
        vec![
            Subgroup::new("Wheat".to_string(), 500_000, 100_000),
            Subgroup::new("Corn".to_string(), 500_000, -200_000),
        ],
    );
    let issue = Issue::new(
        "Storm".to_string(),
        vec!["Farmers".to_string()],
        vec![("Barley".to_string(), -300_000)],
    );
    let mut society = Society::new(vec![group], vec![issue]);
    society.apply_issues();
    let group = &society.interest_groups[0];
    assert_eq!(group.subgroups[0].mood, 100_000);
    assert_eq!(group.subgroups[1].mood, -200_000);
    assert_eq!(group.applicable_issues, vec!["Storm".to_string()]);
}

#[test]
fn applying_twice_accumulates_but_records_once() {
    let group = fixed_group(
        "Drivers",
        SCALE,
        vec![Subgroup::new("Commuters".to_string(), SCALE, 50_000)],
    );
    let issue = Issue::new(
        "Fuel Tax".to_string(),
        vec!["Drivers".to_string()],
        vec![("Commuters".to_string(), -40_000)],
    );
    let mut society = Society::new(vec![group], vec![issue]);
    society.apply_issues();
    society.apply_issues();
    let group = &society.interest_groups[0];
    assert_eq!(group.subgroups[0].mood, 50_000 - 2 * 40_000);
    assert_eq!(group.applicable_issues.len(), 1);
    assert_eq!(group.applicable_issues[0], "Fuel Tax");
}

#[test]
fn normalize_with_zero_sum_is_noop() {
    let mut group = fixed_group(
        "Quiet",
        SCALE,
        vec![
            Subgroup::new("One".to_string(), 0, 10_000),
            Subgroup::new("Two".to_string(), 0, -10_000),
        ],
    );
    group.normalize_subgroups();
    assert_eq!(group.subgroups[0].ratio, 0);
    assert_eq!(group.subgroups[1].ratio, 0);
    assert_eq!(group.subgroups[0].mood, 10_000);
    assert_eq!(group.subgroups[1].mood, -10_000);
}

#[test]
fn normalize_rescales_by_current_sum() {
    let mut group = fixed_group(
        "Lopsided",
        SCALE,
        vec![
            Subgroup::new("Big".to_string(), 3_000_000, 0),
            Subgroup::new("Small".to_string(), 1_000_000, 0),
        ],
    );
    group.normalize_subgroups();
    assert_eq!(group.subgroups[0].ratio, 750_000);
    assert_eq!(group.subgroups[1].ratio, 250_000);
}

#[test]
fn pollution_scenario_applies_exact_deltas() {
    let activism = InterestGroup::new(
        "Environmental Activism".to_string(),
        400_000,
        vec!["Environmentalist".to_string(), "Pro Development".to_string()],
    );
    let m1 = activism.subgroups[0].mood;
    let m2 = activism.subgroups[1].mood;
    let pollution = Issue::new(
        "Pollution".to_string(),
        vec!["Environmental Activism".to_string()],
        vec![
            ("Environmentalist".to_string(), -100_000),
            ("Pro Development".to_string(), -30_000),
        ],
    );
    let mut society = Society::new(vec![activism], vec![pollution]);
    society.apply_issues();
    let group = &society.interest_groups[0];
    assert_eq!(group.subgroups[0].mood, m1 - 100_000);
    assert_eq!(group.subgroups[1].mood, m2 - 30_000);
    assert_eq!(group.applicable_issues, vec!["Pollution".to_string()]);
}

#[test]
fn three_turns_count_and_accumulate() {
    let group = fixed_group(
        "Citizens",
        SCALE,
        vec![Subgroup::new("Everyone".to_string(), SCALE, 0)],
    );
    let issue = Issue::new(
        "Rain".to_string(),
        vec!["Citizens".to_string()],
        vec![("Everyone".to_string(), -10_000)],
    );
    let society = Society::new(vec![group], vec![issue]);
    let mut game = Game::new(society);
    assert_eq!(game.turn, 0);
    game.next_turn();
    game.next_turn();
    game.next_turn();
    assert_eq!(game.turn, 3);
    assert_eq!(game.society.interest_groups[0].subgroups[0].mood, -30_000);
}

#[test]
fn turn_counter_saturates() {
    let society = Society::new(Vec::new(), Vec::new());
    let mut game = Game::new(society);
    game.turn = u32::MAX;
    game.next_turn();
    assert_eq!(game.turn, u32::MAX);
}

#[test]
fn missing_recipient_changes_nothing() {
    let group = fixed_group(
        "Locals",
        SCALE,
        vec![Subgroup::new("Here".to_string(), SCALE, 42_000)],
    );
    let issue = Issue::new(
        "Elsewhere".to_string(),
        vec!["Nobody Home".to_string()],
        vec![("Here".to_string(), -500_000)],
    );
    let mut society = Society::new(vec![group], vec![issue]);
    society.apply_issues();
    let group = &society.interest_groups[0];
    assert_eq!(group.subgroups[0].mood, 42_000);
    assert!(group.applicable_issues.is_empty());
}

#[test]
fn get_subgroup_finds_first_exact_match() {
    let group = fixed_group(
        "Mixed",
        SCALE,
        vec![
            Subgroup::new("Twin".to_string(), 100_000, 1),
            Subgroup::new("Twin".to_string(), 200_000, 2),
            Subgroup::new("Other".to_string(), 700_000, 3),
        ],
    );
    let found = group.get_subgroup(&"Twin".to_string()).unwrap();
    assert_eq!(found.mood, 1);
    assert!(group.get_subgroup(&"twin".to_string()).is_none());
}

#[test]
fn subgroup_population_share_is_product() {
    let group = fixed_group(
        "Town",
        300_000,
        vec![Subgroup::new("North".to_string(), 250_000, 0)],
    );
    assert_eq!(
        group.subgroup_population_share(&"North".to_string()),
        Some(300_000i64 * 250_000)
    );
    assert_eq!(group.subgroup_population_share(&"South".to_string()), None);
}

#[test]
fn effect_lookup_takes_first_entry() {
    let issue = Issue::new(
        "Doubled".to_string(),
        Vec::new(),
        vec![
            ("Key".to_string(), 7),
            ("Key".to_string(), 9),
        ],
    );
    assert_eq!(issue.get_subgroup_effects(&"Key".to_string()), Some(7));
    assert_eq!(issue.get_subgroup_effects(&"Missing".to_string()), None);
    assert_eq!(issue.get_name().as_str(), "Doubled");
    assert!(issue.get_effect_recipients().is_empty());
}

#[test]
fn apply_effect_saturates_at_mood_limit() {
    let mut sg = Subgroup::new("Edge".to_string(), SCALE, MOOD_LIMIT - 5);
    sg.apply_effect(100);
    assert_eq!(sg.mood, MOOD_LIMIT);
    sg.apply_effect(-1);
    assert_eq!(sg.mood, MOOD_LIMIT - 1);
}

#[test]
fn page_navigation_values() {
    let page = Page::Dashboard;
    assert_eq!(page, Page::Dashboard);
    assert_ne!(page, Page::GroupDetail(0));
    assert_eq!(Page::GroupDetail(2), Page::GroupDetail(2));
}
