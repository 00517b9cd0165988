use pi_core::models::{
    build_model_rows, filter_models_by_pattern, format_token_count, fuzzy_match, list_models,
    print_model_table, InputType, Model, ModelEntry,
};

fn model(provider: &str, id: &str, context: u32, out: u32, think: bool, images: bool) -> ModelEntry {
    let mut input = vec![InputType::Text];
    if images {
        input.push(InputType::Image);
    }
    ModelEntry {
        model: Model {
            provider: provider.to_string(),
            id: id.to_string(),
            context_window: context,
            max_tokens: out,
            reasoning: think,
            input,
        },
    }
}

fn shown(count: u32) -> String {
    if count >= 1_000_000 {
        let millions = f64::from(count) / 1_000_000.0;
        if millions.fract() == 0.0 {
            format!("{millions:.0}M")
        } else {
            format!("{millions:.1}M")
        }
    } else if count >= 1_000 {
        let thousands = f64::from(count) / 1_000.0;
        if thousands.fract() == 0.0 {
            format!("{thousands:.0}K")
        } else {
            format!("{thousands:.1}K")
        }
    } else {
        count.to_string()
    }
}

#[test]
fn token_counts_are_short() {
    assert_eq!(format_token_count(0), "0");
    assert_eq!(format_token_count(999), "999");
    assert_eq!(format_token_count(1_000), "1K");
    assert_eq!(format_token_count(8_192), "8.2K");
    assert_eq!(format_token_count(200_000), "200K");
    assert_eq!(format_token_count(999_999), "1000.0K");
    assert_eq!(format_token_count(1_000_000), "1M");
    assert_eq!(format_token_count(1_048_576), "1.0M");
    assert_eq!(format_token_count(4_294_967_295), "4295.0M");
}

#[test]
fn halves_of_a_tenth_go_by_the_binary_quotient() {
    assert_eq!(format_token_count(1_050), "1.1K");
    assert_eq!(format_token_count(1_150), "1.1K");
    assert_eq!(format_token_count(1_250), "1.2K");
    assert_eq!(format_token_count(1_350), "1.4K");
    assert_eq!(format_token_count(1_750), "1.8K");
    assert_eq!(format_token_count(1_250_000), "1.2M");
    assert_eq!(format_token_count(1_150_000), "1.1M");
}

#[test]
fn token_counts_agree_with_floating_point() {
    for count in 0..1_000_000u32 {
        if count % 50 == 0 || count % 7 == 0 {
            assert_eq!(format_token_count(count), shown(count));
        }
    }
    for step in 0..86_000u32 {
        let count = step * 49_940;
        assert_eq!(format_token_count(count), shown(count));
    }
    for step in 20..85_899u32 {
        let count = step * 50_000;
        assert_eq!(format_token_count(count), shown(count));
    }
    assert_eq!(format_token_count(u32::MAX), shown(u32::MAX));
}

#[test]
fn patterns_match_fuzzily() {
    assert!(fuzzy_match("gpt4", "openai gpt-4"));
    assert!(fuzzy_match("OPN 4", "OpenAI gpt-4"));
    assert!(!fuzzy_match("4gpt", "openai gpt-4"));
    assert!(fuzzy_match("", "anything"));
    assert!(fuzzy_match(" \t", ""));
    assert!(!fuzzy_match("a", ""));
    assert!(!fuzzy_match("aa", "a"));
    assert!(fuzzy_match("\u{c4}b", "x\u{e4}yB"));
}

#[test]
fn models_are_filtered_in_order() {
    let models =
        vec![model("p", "b1", 1, 1, false, false), model("q", "a", 1, 1, false, false), model("p", "b2", 1, 1, false, false)];
    let ids: Vec<String> =
        filter_models_by_pattern(&models, "p b").into_iter().map(|m| m.model.id).collect();
    assert_eq!(ids, vec!["b1".to_string(), "b2".to_string()]);
}

#[test]
fn rows_hold_six_cells() {
    let rows = build_model_rows(&[model("p", "m", 128_000, 8_192, true, false)]);
    let row: Vec<&str> = rows[0].iter().map(String::as_str).collect();
    assert_eq!(row, vec!["p", "m", "128K", "8.2K", "yes", "no"]);
    let rows = build_model_rows(&[model("p", "m", 1, 2, false, true)]);
    let row: Vec<&str> = rows[0].iter().map(String::as_str).collect();
    assert_eq!(row, vec!["p", "m", "1", "2", "no", "yes"]);
}

#[test]
fn tables_are_padded() {
    let rows = build_model_rows(&[model("anthropic", "m\u{e4}x", 200_000, 64_000, true, true)]);
    assert_eq!(
        print_model_table(&rows),
        "provider   model  context  max-out  thinking  images\n\
         anthropic  m\u{e4}x    200K     64K      yes       yes   \n"
    );
    assert_eq!(
        print_model_table(&[]),
        "provider  model  context  max-out  thinking  images\n"
    );
}

#[test]
fn columns_are_as_wide_as_their_bytes() {
    let rows = build_model_rows(&[model("p", "\u{e4}\u{e4}\u{e4}\u{e4}", 1, 1, false, false)]);
    let table = print_model_table(&rows);
    let lines: Vec<&str> = table.lines().collect();
    assert_eq!(lines[0], "provider  model     context  max-out  thinking  images");
    assert_eq!(
        lines[1],
        "p         \u{e4}\u{e4}\u{e4}\u{e4}      1        1        no        no    "
    );
}

#[test]
fn lists_are_sorted_and_filtered() {
    let models = vec![
        model("z", "one", 1_000, 1_000, false, false),
        model("a", "two", 1_000, 1_000, false, false),
        model("a", "Three", 1_000, 1_000, false, false),
    ];
    let listed = list_models(&models, None);
    let firsts: Vec<String> = listed
        .lines()
        .skip(1)
        .map(|l| l.split_whitespace().take(2).collect::<Vec<_>>().join("/"))
        .collect();
    assert_eq!(firsts, vec!["a/Three", "a/two", "z/one"]);
    assert_eq!(list_models(&models, Some("zo")).lines().count(), 2);
    assert_eq!(list_models(&models, Some("xyz")), "No models matching \"xyz\"\n");
    assert_eq!(
        list_models(&[], Some("xyz")),
        "No models available. Set API keys in environment variables.\n"
    );
}

#[test]
fn values_fit_themselves_and_longer_ones() {
    for value in ["openai gpt-4", "A B c", "\u{c4}\u{d6} \u{dc}", ""] {
        assert!(fuzzy_match(value, value));
        assert!(fuzzy_match(value, &format!("x{value}y")));
    }
}
