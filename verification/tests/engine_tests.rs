//! Playback behavior: stepping, jumps, the sprite registry, the
//! attribute store and the render cache, exercised end to end.

use image_rpg::AttributeDirective;
use image_rpg::AttributeValue;
use image_rpg::Attributes;
use image_rpg::Color;
use image_rpg::Directive;
use image_rpg::Engine;
use image_rpg::EngineError;
use image_rpg::RenderCache;
use image_rpg::Script;
use image_rpg::ScriptContext;
use image_rpg::ScriptDirective;

#[test]
fn foo() {
    let mut attrs = Attributes::new();
    attrs.add_attribute(&AttributeDirective::from_context("a.b.c, 1").unwrap());
    attrs.add_attribute(&AttributeDirective::from_context("a.b.d, 2").unwrap());
    attrs.add_attribute(&AttributeDirective::from_context("a.e, 3").unwrap());
    attrs.add_attribute(&AttributeDirective::from_context("d, 2").unwrap());
    println!("{:#?}", attrs.get_path("a.b.c.d"));
}

#[test]
fn dialogue_parses_and_plays() {
    let mut engine = Engine::from_source("[Frog]\nHello world", "script.txt").unwrap();
    match engine.current() {
        Some(ScriptContext::Dialogue(d)) => {
            assert_eq!(d.character_name, "Frog");
            assert_eq!(d.dialogues, vec!["Hello world".to_string()]);
        }
        other => panic!("expected a dialogue, got {:?}", other),
    }
    engine.next(false).unwrap();
    assert!(engine.current().is_none());
}

#[test]
fn sprite_show_then_hide_leaves_registry_empty() {
    let mut engine = Engine::from_source(
        "@sprite(alice,alice.png,100,200,show)\n@sprite(alice,hide)",
        "s.txt",
    )
    .unwrap();
    engine.next(false).unwrap();
    assert_eq!(engine.sprites.len(), 1);
    assert_eq!(engine.sprites[0].name, "alice");
    assert_eq!(engine.sprites[0].x, Some(100));
    assert_eq!(engine.sprites[0].y, Some(200));
    engine.next(false).unwrap();
    assert!(engine.sprites.is_empty());
}

#[test]
fn unconditional_jump_follows_for_any_choice() {
    for choice in [false, true] {
        let mut engine = Engine::from_source("@jump(other.txt)", "main.txt").unwrap();
        match engine.next(choice) {
            Err(EngineError::ScriptNotLoaded(path)) => assert_eq!(path, "other.txt"),
            other => panic!("expected a script request, got {:?}", other),
        }
        // The failing step left the cursor unmoved; supply and retry.
        assert_eq!(engine.iscript, 0);
        let target = Script::from_source("[A]\nhi", "other.txt").unwrap();
        engine.supply_script(target);
        engine.next(choice).unwrap();
        assert_eq!(engine.script.name, "other.txt");
        assert_eq!(engine.iscript, 0);
        assert!(matches!(engine.current(), Some(ScriptContext::Dialogue(_))));
    }
}

#[test]
fn choice_jump_false_never_follows() {
    let mut engine = Engine::from_source("@jump(Yes, No, other.txt)\n[B]\nbye", "main.txt").unwrap();
    engine.next(false).unwrap();
    assert_eq!(engine.script.name, "main.txt");
    assert_eq!(engine.iscript, 1);
}

#[test]
fn choice_jump_true_always_follows() {
    let mut engine = Engine::from_source("@jump(Yes, No, other.txt)", "main.txt").unwrap();
    let target = Script::from_source("[A]\nhi", "other.txt").unwrap();
    engine.supply_script(target);
    engine.next(true).unwrap();
    assert_eq!(engine.script.name, "other.txt");
    assert_eq!(engine.iscript, 0);
}

#[test]
fn attribute_roundtrip_through_store() {
    let mut attrs = Attributes::new();
    attrs.add_attribute(&AttributeDirective::from_context("a.b.c, 1").unwrap());
    match attrs.get_path("a.b.c") {
        Some(AttributeValue::Value(v)) => assert_eq!(v, "1"),
        other => panic!("expected the written leaf, got {:?}", other),
    }
}

#[test]
fn attribute_root_write() {
    let mut attrs = Attributes::new();
    attrs.add_attribute(&AttributeDirective::from_context("d, 2").unwrap());
    match attrs.get_path("d") {
        Some(AttributeValue::Value(v)) => assert_eq!(v, "2"),
        other => panic!("expected the written leaf, got {:?}", other),
    }
}

#[test]
fn attribute_leaf_overwritten() {
    let mut attrs = Attributes::new();
    attrs.add_attribute(&AttributeDirective::from_context("a.b, 1").unwrap());
    attrs.add_attribute(&AttributeDirective::from_context("a.b, 2").unwrap());
    match attrs.get_path("a.b") {
        Some(AttributeValue::Value(v)) => assert_eq!(v, "2"),
        other => panic!("expected the rewritten leaf, got {:?}", other),
    }
}

#[test]
fn next_until_renderable_applies_side_effects() {
    let source = "@loadbg(bg.png)\n@sprite(alice,alice.png,1,2,show)\n@attr(sprite.alice.priority, 5)\n[Frog]\nhi";
    let mut engine = Engine::from_source(source, "s.txt").unwrap();
    match engine.next_until_renderable() {
        Err(EngineError::AssetNotLoaded(path)) => assert_eq!(path, "bg.png"),
        other => panic!("expected an asset request, got {:?}", other),
    }
    engine.supply_asset("bg.png".to_string());
    engine.next_until_renderable().unwrap();
    match engine.current() {
        Some(ScriptContext::Dialogue(d)) => assert_eq!(d.character_name, "Frog"),
        other => panic!("expected to stop at the dialogue, got {:?}", other),
    }
    assert_eq!(engine.bg_path.as_deref(), Some("bg.png"));
    assert_eq!(engine.sprites.len(), 1);
    assert_eq!(engine.sprites[0].name, "alice");
    match engine.attributes.get_path("sprite.alice.priority") {
        Some(AttributeValue::Value(v)) => assert_eq!(v, "5"),
        other => panic!("expected the priority leaf, got {:?}", other),
    }
}

#[test]
fn next_until_renderable_stops_at_choice_jump() {
    let mut engine = Engine::from_source("@custom(play(1,2,x))\n@jump(A, B, t.txt)", "s.txt").unwrap();
    engine.next_until_renderable().unwrap();
    match engine.current() {
        Some(ScriptContext::Directive(ScriptDirective::Jump(j))) => {
            assert_eq!(
                j.choices,
                Some(("A".to_string(), "B".to_string()))
            );
        }
        other => panic!("expected to stop at the choice jump, got {:?}", other),
    }
}

#[test]
fn next_until_with_predicate() {
    let mut engine = Engine::from_source("@custom(play(1,2,x))\n[Frog]\nhi", "s.txt").unwrap();
    engine
        .next_until(|c| matches!(c, ScriptContext::Dialogue(_)))
        .unwrap();
    assert!(matches!(engine.current(), Some(ScriptContext::Dialogue(_))));
}

#[test]
fn loadbg_sets_background_before_failing() {
    let mut engine = Engine::from_source("@loadbg(bg.png)", "s.txt").unwrap();
    assert!(engine.next(false).is_err());
    // The background path is recorded even while the asset is missing,
    // and the cursor stays on the directive for a retry.
    assert_eq!(engine.bg_path.as_deref(), Some("bg.png"));
    assert_eq!(engine.iscript, 0);
    engine.supply_asset("bg.png".to_string());
    engine.next(false).unwrap();
    assert_eq!(engine.iscript, 1);
}

#[test]
fn priority_orders_registry_on_insert() {
    let source = "@attr(sprite.low.priority, 1)\n@attr(sprite.high.priority, 9)\n@sprite(low,l.png,0,0,show)\n@sprite(high,h.png,0,0,show)";
    let mut engine = Engine::from_source(source, "s.txt").unwrap();
    for _ in 0..4 {
        engine.next(false).unwrap();
    }
    // The higher-priority sprite is inserted before the first entry
    // whose priority is no greater than its own.
    assert_eq!(engine.sprites[0].name, "high");
    assert_eq!(engine.sprites[1].name, "low");
}

#[test]
fn priority_write_resorts_registry() {
    let source = "@sprite(a,a.png,0,0,show)\n@sprite(b,b.png,0,0,show)\n@attr(sprite.a.priority, 5)";
    let mut engine = Engine::from_source(source, "s.txt").unwrap();
    engine.next(false).unwrap();
    engine.next(false).unwrap();
    // A newly shown sprite goes just before the first entry whose
    // priority is no greater than its own: b lands in front of a.
    assert_eq!(engine.sprites[0].name, "b");
    assert_eq!(engine.sprites[1].name, "a");
    engine.next(false).unwrap();
    // a now outranks b (priority 5 over default 0): the write to a
    // sprite priority re-sorts the registry and a moves first.
    assert_eq!(engine.sprites[0].name, "a");
    assert_eq!(engine.sprites[1].name, "b");
}

#[test]
fn hidden_sprite_does_not_reappear_after_priority_write() {
    let source =
        "@sprite(x,x.png,0,0,show)\n@sprite(x,hide)\n@attr(sprite.x.priority, 3)\n[F]\nhi";
    let mut engine = Engine::from_source(source, "s.txt").unwrap();
    engine.next_until_renderable().unwrap();
    assert!(engine.sprites.iter().all(|s| s.name != "x"));
    assert!(engine.sprites.is_empty());
}

#[test]
fn render_context_of_dialogue_frame() {
    let source = "@attr(character.Frog.text_color, ff0000ff)\n[Frog]\nHello\nworld";
    let mut engine = Engine::from_source(source, "s.txt").unwrap();
    engine.next_until_renderable().unwrap();
    let ctx = engine.render_context().unwrap();
    assert_eq!(ctx.character_name, "Frog");
    assert_eq!(ctx.dialogue, " Hello world");
    assert_eq!(ctx.text_color, Color { r: 255, g: 0, b: 0, a: 255 });
    // No dialogue color was set: the default is half-opaque black.
    assert_eq!(ctx.dialogue_color, Color { r: 0, g: 0, b: 0, a: 127 });
    assert!(ctx.background.is_none());
    assert!(ctx.sprites.is_empty());
}

#[test]
fn hash_is_deterministic_and_text_sensitive() {
    let source = "[Frog]\nHello";
    let mut e1 = Engine::from_source(source, "s.txt").unwrap();
    e1.next_until_renderable().unwrap();
    let c1 = e1.render_context().unwrap();
    let mut e2 = Engine::from_source(source, "s.txt").unwrap();
    e2.next_until_renderable().unwrap();
    let c2 = e2.render_context().unwrap();
    assert_eq!(image_rpg::render::dialogue_hash(&c1), image_rpg::render::dialogue_hash(&c2));

    let mut e3 = Engine::from_source("[Frog]\nGoodbye", "s.txt").unwrap();
    e3.next_until_renderable().unwrap();
    let c3 = e3.render_context().unwrap();
    assert_ne!(image_rpg::render::dialogue_hash(&c1), image_rpg::render::dialogue_hash(&c3));
}

#[test]
fn render_cache_records_and_looks_up() {
    let mut cache = RenderCache::new();
    assert!(cache.lookup(42).is_none());
    cache.record(42, "a.png".to_string());
    assert_eq!(cache.lookup(42).map(|s| s.as_str()), Some("a.png"));
    cache.record(42, "b.png".to_string());
    assert_eq!(cache.lookup(42).map(|s| s.as_str()), Some("b.png"));
    assert!(cache.lookup(7).is_none());
    cache.record(7, "c.png".to_string());
    assert_eq!(cache.lookup(7).map(|s| s.as_str()), Some("c.png"));
    assert_eq!(cache.lookup(42).map(|s| s.as_str()), Some("b.png"));
}

#[test]
fn render_cache_built_from_scan_results() {
    let cache = RenderCache::from_entries(vec![
        (1, "one.png".to_string()),
        (2, "two.png".to_string()),
    ]);
    assert_eq!(cache.lookup(1).map(|s| s.as_str()), Some("one.png"));
    assert_eq!(cache.lookup(2).map(|s| s.as_str()), Some("two.png"));
    assert!(cache.lookup(3).is_none());
}

#[test]
fn custom_directive_steps_past() {
    let mut engine = Engine::from_source("@custom(play(1, 2, url))", "s.txt").unwrap();
    match engine.current() {
        Some(ScriptContext::Directive(ScriptDirective::Custom(c))) => {
            assert_eq!(c.name, "play");
            assert_eq!(c.args, vec!["1".to_string(), "2".to_string(), "url".to_string()]);
        }
        other => panic!("expected the custom directive, got {:?}", other),
    }
    engine.next(false).unwrap();
    assert!(engine.current().is_none());
}

#[test]
fn jump_target_memoized_per_reference() {
    let mut engine = Engine::from_source("@jump(t.txt)", "s.txt").unwrap();
    let target = Script::from_source("@jump(u.txt)", "t.txt").unwrap();
    engine.supply_script(target);
    engine.next(false).unwrap();
    assert_eq!(engine.script.name, "t.txt");
    // The new script's own jump is unresolved: playback asks again.
    assert!(matches!(
        engine.next(false),
        Err(EngineError::ScriptNotLoaded(p)) if p == "u.txt"
    ));
}
