use scenedsl::interpreter::interpret;
use scenedsl::interpreter::AssetCatalog;
use scenedsl::interpreter::Effect;
use scenedsl::interpreter::SceneRegistry;

fn catalog_of(names: &[&str]) -> AssetCatalog {
    let mut c = AssetCatalog::new();
    for n in names {
        c.add(n.to_string());
    }
    c
}

fn image_names(reg: &SceneRegistry) -> Vec<String> {
    reg.images.clone()
}

#[test]
fn builds_bindings_for_loaded_image() {
    let cat = catalog_of(&["a"]);
    let reg = interpret("img a\npos 1 2\nblur 3", &cat);
    assert_eq!(image_names(&reg), vec!["a".to_string()]);
    assert_eq!(reg.positions.len(), 1);
    assert_eq!(reg.positions[0].0, "a");
    assert_eq!(reg.effects.len(), 1);
    assert_eq!(reg.effects[0].0, "a");
    assert_eq!(reg.effects[0].1.len(), 1);
    assert!(matches!(reg.effects[0].1[0], Effect::Blur(_)));
}

#[test]
fn failed_load_drops_all_bindings() {
    // the same program against a catalog that cannot load `a` yields a
    // registry with no entry for `a` at all
    let cat = catalog_of(&[]);
    let reg = interpret("img a\npos 1 2\nblur 3", &cat);
    assert!(reg.images.is_empty());
    assert!(reg.positions.is_empty());
    assert!(reg.sizes.is_empty());
    assert!(reg.effects.is_empty());
}

#[test]
fn sampled_position_values() {
    let cat = catalog_of(&["a"]);
    let mut reg = interpret("img a\npos 1 2", &cat);
    let mut entry = reg.positions.remove(0);
    assert_eq!(entry.1.get_next(), Ok(1_000_000));
    assert_eq!(entry.2.get_next(), Ok(2_000_000));
}

#[test]
fn comment_lines_have_no_effect() {
    let cat = catalog_of(&["a"]);
    let reg = interpret("# note", &cat);
    assert!(reg.images.is_empty());
    assert!(reg.positions.is_empty());
    assert!(reg.effects.is_empty());

    let with = interpret("img a\n  # interleaved note\nblur 3", &cat);
    let without = interpret("img a\nblur 3", &cat);
    assert_eq!(image_names(&with), image_names(&without));
    assert_eq!(with.effects.len(), without.effects.len());
    assert_eq!(with.effects[0].1.len(), without.effects[0].1.len());
}

#[test]
fn reinterpretation_is_stable() {
    let cat = catalog_of(&["a", "b"]);
    let text = "img a\npos 1 2\nsize 3 4\ncrop 0.1 0.1 0.5 0.5\nimg b\nopacity [ramp 0 1 10]";
    let r1 = interpret(text, &cat);
    let r2 = interpret(text, &cat);
    assert_eq!(image_names(&r1), image_names(&r2));
    assert_eq!(r1.positions.len(), r2.positions.len());
    assert_eq!(r1.sizes.len(), r2.sizes.len());
    assert_eq!(r1.effects.len(), r2.effects.len());
    for (e1, e2) in r1.effects.iter().zip(r2.effects.iter()) {
        assert_eq!(e1.0, e2.0);
        assert_eq!(e1.1.len(), e2.1.len());
    }
}

#[test]
fn bindings_before_any_image_are_discarded() {
    let cat = catalog_of(&["a"]);
    let reg = interpret("pos 1 2\nblur 3\nimg a", &cat);
    assert_eq!(image_names(&reg), vec!["a".to_string()]);
    assert!(reg.positions.is_empty());
    assert_eq!(reg.effects[0].1.len(), 0);
}

#[test]
fn failed_image_clears_current_context() {
    let cat = catalog_of(&["a"]);
    let reg = interpret("img a\nimg missing\nblur 3", &cat);
    // after the failed load nothing attaches until the next successful img
    assert_eq!(image_names(&reg), vec!["a".to_string()]);
    assert_eq!(reg.effects[0].1.len(), 0);
}

#[test]
fn reissued_image_resets_effects() {
    let cat = catalog_of(&["a"]);
    let reg = interpret("img a\nblur 3\nimg a\ncontrast 2", &cat);
    assert_eq!(image_names(&reg), vec!["a".to_string()]);
    assert_eq!(reg.effects.len(), 1);
    assert_eq!(reg.effects[0].1.len(), 1);
    assert!(matches!(reg.effects[0].1[0], Effect::Contrast(_)));
}

#[test]
fn unknown_keywords_are_skipped() {
    let cat = catalog_of(&["a"]);
    let reg = interpret("img a\nwobble blur 2", &cat);
    // the unrecognized word is skipped; `blur 2` still applies
    assert_eq!(reg.effects[0].1.len(), 1);
    assert!(matches!(reg.effects[0].1[0], Effect::Blur(_)));
}

#[test]
fn malformed_statement_is_dropped() {
    let cat = catalog_of(&["a"]);
    let reg = interpret("img a\npos blur 2", &cat);
    // `pos` consumes the mismatched word and the scalar is no keyword
    assert!(reg.positions.is_empty());
    assert_eq!(reg.effects[0].1.len(), 0);
}

#[test]
fn syntax_error_affects_only_its_line() {
    let cat = catalog_of(&["a"]);
    let reg = interpret("img a\n[oops\nblur 3", &cat);
    assert_eq!(image_names(&reg), vec!["a".to_string()]);
    assert_eq!(reg.effects[0].1.len(), 1);
}

#[test]
fn overwrites_keep_one_binding_per_name() {
    let cat = catalog_of(&["a"]);
    let mut reg = interpret("img a\npos 1 2\npos 5 6", &cat);
    assert_eq!(reg.positions.len(), 1);
    let mut entry = reg.positions.remove(0);
    assert_eq!(entry.1.get_next(), Ok(5_000_000));
}

#[test]
fn statements_share_a_line() {
    let cat = catalog_of(&["a"]);
    let reg = interpret("img a pos 1 2 blur 0.5", &cat);
    assert_eq!(reg.positions.len(), 1);
    assert_eq!(reg.effects[0].1.len(), 1);
}

#[test]
fn generator_arity_defaults() {
    let cat = catalog_of(&["a"]);
    // one argument is not a valid (min, max) pair: the ramp falls back to
    // the full default and starts at zero, not at the given value
    let mut reg = interpret("img a\npos [ramp 0.5] [bounce 0.1 0.9]", &cat);
    let mut entry = reg.positions.remove(0);
    assert_eq!(entry.1.get_next(), Ok(0));
    // two arguments keep (min, max); the bounce starts at its floor
    assert_eq!(entry.2.get_next(), Ok(100_000));
}

#[test]
fn crop_takes_four_parameters() {
    let cat = catalog_of(&["a"]);
    let reg = interpret("img a\ncrop 0.1 0.2 0.3 0.4", &cat);
    assert_eq!(reg.effects[0].1.len(), 1);
    assert!(matches!(reg.effects[0].1[0], Effect::Crop(_, _, _, _)));
    let partial = interpret("img a\ncrop 0.1 0.2", &cat);
    assert_eq!(partial.effects[0].1.len(), 0);
}
