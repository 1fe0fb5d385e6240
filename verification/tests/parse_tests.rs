//! Parsing: the script grammar, each directive decoder with its
//! error cases, the numeric readers, and the configuration format.

use image_rpg::AttributeDirective;
use image_rpg::CharacterAttributeDirective;
use image_rpg::Config;
use image_rpg::CustomDirective;
use image_rpg::Directive;
use image_rpg::JumpDirective;
use image_rpg::LoadBGDirective;
use image_rpg::ParseError;
use image_rpg::Script;
use image_rpg::ScriptContext;
use image_rpg::ScriptDirective;
use image_rpg::SpriteDirective;
use image_rpg::numbers::parse_hex_u32;
use image_rpg::numbers::parse_i64;
use image_rpg::numbers::parse_u32;

#[test]
fn script_parses_mixed_lines() {
    let source = "# a comment\n[Frog]\nline one\nline two\n\n@loadbg(backgrounds/bg1.png)";
    let script = Script::from_source(source, "demo.txt").unwrap();
    assert_eq!(script.name, "demo.txt");
    assert_eq!(script.ctx.len(), 2);
    match &script.ctx[0] {
        ScriptContext::Dialogue(d) => {
            assert_eq!(d.character_name, "Frog");
            assert_eq!(d.dialogues, vec!["line one".to_string(), "line two".to_string()]);
        }
        other => panic!("expected a dialogue, got {:?}", other),
    }
    match &script.ctx[1] {
        ScriptContext::Directive(ScriptDirective::LoadBG(b)) => {
            assert_eq!(b.bg_path, "backgrounds/bg1.png");
        }
        other => panic!("expected the background directive, got {:?}", other),
    }
}

#[test]
fn carriage_returns_are_stripped_from_dialogue() {
    let script = Script::from_source("[A]\nhi there\r", "s.txt").unwrap();
    match &script.ctx[0] {
        ScriptContext::Dialogue(d) => assert_eq!(d.dialogues, vec!["hi there".to_string()]),
        other => panic!("expected a dialogue, got {:?}", other),
    }
}

#[test]
fn missing_bracket_is_a_syntax_error() {
    match Script::from_source("[Frog\nhi", "s.txt") {
        Err(ParseError::SyntaxError(file, line, _, why)) => {
            assert_eq!(file, "s.txt");
            assert_eq!(line, 1);
            assert_eq!(why, "Expected closing ]");
        }
        other => panic!("expected a syntax error, got {:?}", other),
    }
}

#[test]
fn unknown_directive_is_a_syntax_error() {
    match Script::from_source("@frobnicate(1)", "s.txt") {
        Err(ParseError::SyntaxError(_, 1, _, why)) => {
            assert_eq!(why, "Unknown directive frobnicate");
        }
        other => panic!("expected a syntax error, got {:?}", other),
    }
}

#[test]
fn unmatched_dialogue_is_a_syntax_error() {
    match Script::from_source("just some text", "s.txt") {
        Err(ParseError::SyntaxError(_, 1, 0, why)) => {
            assert_eq!(why, "Unmatched dialogue with character");
        }
        other => panic!("expected a syntax error, got {:?}", other),
    }
}

#[test]
fn directive_without_parenthesis_is_a_syntax_error() {
    match Script::from_source("@jump other.txt", "s.txt") {
        Err(ParseError::SyntaxError(_, 1, _, why)) => assert_eq!(why, "Expected ("),
        other => panic!("expected a syntax error, got {:?}", other),
    }
    match Script::from_source("@jump(other.txt", "s.txt") {
        Err(ParseError::SyntaxError(_, 1, _, why)) => {
            assert_eq!(why, "Expected closing parentheses");
        }
        other => panic!("expected a syntax error, got {:?}", other),
    }
}

#[test]
fn decoder_error_carries_line_and_detail() {
    match Script::from_source("[A]\nhi\n@jump(a, b)", "s.txt") {
        Err(ParseError::SyntaxError(_, 3, _, why)) => {
            assert_eq!(
                why,
                "Directive jump cannot handle argument jump directive expects 1 or 3 arguments, got 2"
            );
        }
        other => panic!("expected a syntax error, got {:?}", other),
    }
}

#[test]
fn jump_decoder_shapes() {
    let j = JumpDirective::from_context("  other/script.txt ").unwrap();
    assert!(j.choices.is_none());
    assert_eq!(j.endpoint.script_path, "other/script.txt");
    assert!(j.endpoint.script.is_none());

    let j = JumpDirective::from_context("ChoiceA, ChoiceB, other/script.txt").unwrap();
    assert_eq!(j.choices, Some(("ChoiceA".to_string(), "ChoiceB".to_string())));
    assert_eq!(j.endpoint.script_path, "other/script.txt");

    assert!(JumpDirective::from_context("a, b").is_err());
}

#[test]
fn sprite_decoder_shapes() {
    let s = SpriteDirective::from_context("alice, alice.png, 100, 200, show").unwrap();
    assert_eq!(s.name, "alice");
    assert_eq!(s.sprite_path.as_deref(), Some("alice.png"));
    assert_eq!(s.x, Some(100));
    assert_eq!(s.y, Some(200));
    assert!(s.show);

    let s = SpriteDirective::from_context("alice, hide").unwrap();
    assert_eq!(s.name, "alice");
    assert!(s.sprite_path.is_none());
    assert!(!s.show);

    assert!(SpriteDirective::from_context("alice, show").is_err());
    assert!(SpriteDirective::from_context("alice, a.png, x, 2, show").is_err());
    assert!(SpriteDirective::from_context("alice, a.png, 1, 2, flicker").is_err());
    assert!(SpriteDirective::from_context("alice").is_err());
}

#[test]
fn jump_decoder_ignores_parts_past_the_third() {
    let j = JumpDirective::from_context("a, b, target.txt, extra").unwrap();
    assert_eq!(j.choices, Some(("a".to_string(), "b".to_string())));
    assert_eq!(j.endpoint.script_path, "target.txt");
}

#[test]
fn sprite_decoder_strips_all_whitespace() {
    let s = SpriteDirective::from_context("  al ice ,\ta.png , 1 0 , 2 , show ").unwrap();
    assert_eq!(s.name, "alice");
    assert_eq!(s.sprite_path.as_deref(), Some("a.png"));
    assert_eq!(s.x, Some(10));
    assert_eq!(s.y, Some(2));
    assert!(s.show);
}

#[test]
fn loadbg_decoder_takes_everything() {
    let b = LoadBGDirective::from_context("backgrounds/bg1.png").unwrap();
    assert_eq!(b.bg_path, "backgrounds/bg1.png");
}

#[test]
fn attr_decoder_splits_at_last_dot() {
    let a = AttributeDirective::from_context("sprite.alice.priority, 5").unwrap();
    assert_eq!(a.path, "sprite.alice");
    assert_eq!(a.key, "priority");
    assert_eq!(a.value, "5");

    let a = AttributeDirective::from_context("d, 2").unwrap();
    assert_eq!(a.path, "");
    assert_eq!(a.key, "d");
    assert_eq!(a.value, "2");

    assert!(AttributeDirective::from_context("lonely").is_err());
}

#[test]
fn custom_decoder_reads_inner_call() {
    let c = CustomDirective::from_context("play(12345, 67890, https://example.com/audio)").unwrap();
    assert_eq!(c.name, "play");
    assert_eq!(
        c.args,
        vec!["12345".to_string(), "67890".to_string(), "https://example.com/audio".to_string()]
    );
    assert!(CustomDirective::from_context("no parens").is_err());
}

#[test]
fn cattr_decoder_reads_dialogue_color() {
    let c = CharacterAttributeDirective::from_context("Frog, dialogue_color, 11223344").unwrap();
    assert_eq!(c.character, "Frog");
    assert_eq!(c.dialogue_color, Some(0x11223344));
    assert!(c.text_color.is_none());

    assert!(CharacterAttributeDirective::from_context("Frog").is_err());
    assert!(CharacterAttributeDirective::from_context("Frog, dialogue_color").is_err());
    assert!(CharacterAttributeDirective::from_context("Frog, dialogue_color, zz").is_err());
    assert!(CharacterAttributeDirective::from_context("Frog, wig_color, 11").is_err());
}

#[test]
fn numeric_readers() {
    assert_eq!(parse_u32("0"), Some(0));
    assert_eq!(parse_u32("4294967295"), Some(u32::MAX));
    assert_eq!(parse_u32("4294967296"), None);
    assert_eq!(parse_u32(""), None);
    assert_eq!(parse_u32("12a"), None);

    assert_eq!(parse_i64("-5"), Some(-5));
    assert_eq!(parse_i64("9223372036854775807"), Some(i64::MAX));
    assert_eq!(parse_i64("-9223372036854775808"), Some(i64::MIN));
    assert_eq!(parse_i64("9223372036854775808"), None);
    assert_eq!(parse_i64("-"), None);

    assert_eq!(parse_hex_u32("ff"), Some(255));
    assert_eq!(parse_hex_u32("FF00"), Some(0xff00));
    assert_eq!(parse_hex_u32("ffffffff"), Some(u32::MAX));
    assert_eq!(parse_hex_u32("100000000"), None);
    assert_eq!(parse_hex_u32(""), None);
}

#[test]
fn config_sections_and_values() {
    let source = "[Game]\nname = Demo\n\n[Path]\nscript_path = resources/script.txt\nname=other";
    let cfg = Config::from_source(source, "config.conf").unwrap();
    assert_eq!(cfg.get_value("Game", "name").map(|s| s.as_str()), Some("Demo"));
    assert_eq!(
        cfg.get_value("Path", "script_path").map(|s| s.as_str()),
        Some("resources/script.txt")
    );
    assert_eq!(cfg.get_value("Path", "name").map(|s| s.as_str()), Some("other"));
    assert!(cfg.get_value("Game", "missing").is_none());
    assert!(cfg.get_section("Discord").is_none());
}

#[test]
fn config_reentered_section_resets() {
    let source = "[A]\nx = 1\n[B]\ny = 2\n[A]\nz = 3";
    let cfg = Config::from_source(source, "c.conf").unwrap();
    assert!(cfg.get_value("A", "x").is_none());
    assert_eq!(cfg.get_value("A", "z").map(|s| s.as_str()), Some("3"));
    assert_eq!(cfg.get_value("B", "y").map(|s| s.as_str()), Some("2"));
}

#[test]
fn flat_config_keeps_every_occurrence() {
    let source = "[A]\nx = 1\nx=2\n[A]\ny  =  3";
    let cfg = image_rpg::parse::Config::from_source(source, "c.conf").unwrap();
    assert_eq!(cfg.fields.len(), 2);
    assert_eq!(cfg.fields[0].header.as_deref(), Some("A"));
    // Whitespace is stripped wholesale and nothing is deduplicated.
    assert_eq!(
        cfg.fields[0].values,
        vec![("x".to_string(), "1".to_string()), ("x".to_string(), "2".to_string())]
    );
    assert_eq!(cfg.fields[1].values, vec![("y".to_string(), "3".to_string())]);
    assert!(image_rpg::parse::Config::from_source("[A\nx=1", "c.conf").is_err());
    assert!(image_rpg::parse::Config::from_source("[A]\nnovalue", "c.conf").is_err());
    assert!(image_rpg::parse::Config::from_source("x=1", "c.conf").is_err());
}

#[test]
fn config_errors() {
    match Config::from_source("[Game\nname = x", "c.conf") {
        Err(ParseError::SyntaxError(_, 1, _, why)) => assert_eq!(why, "Expected closing ]"),
        other => panic!("expected a syntax error, got {:?}", other),
    }
    match Config::from_source("[Game]\njust text", "c.conf") {
        Err(ParseError::SyntaxError(_, 2, _, why)) => {
            assert_eq!(why, "Values must be separated by =");
        }
        other => panic!("expected a syntax error, got {:?}", other),
    }
    match Config::from_source("orphan = 1", "c.conf") {
        Err(ParseError::SyntaxError(_, 1, _, why)) => {
            assert_eq!(why, "Value outside of a section");
        }
        other => panic!("expected a syntax error, got {:?}", other),
    }
}
