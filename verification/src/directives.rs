//! The directive types and their decoders.
//!
//! Each decoder turns the raw text between a directive's parentheses
//! into a typed directive value, or reports exactly why it cannot.

use vstd::prelude::*;
use vstd::string::*;

use crate::errors::ParseError;
use crate::errors::ParseErrorView;
use crate::numbers::parse_hex_u32;
use crate::numbers::parse_u32;
use crate::numbers::spec_parse_hex_u32;
use crate::numbers::spec_parse_u32;
use crate::script::Script;
use crate::script::ScriptView;
use crate::script::script_view;
use crate::text::find_char;
use crate::text::rfind_char;
use crate::text::spec_find;
use crate::text::spec_rfind;
use crate::text::spec_split;
use crate::text::spec_strip_spaces;
use crate::text::spec_trim;
use crate::text::spec_trim_char;
use crate::text::split_char;
use crate::text::str_eq;
use crate::text::strip_spaces;
use crate::text::trim_char_str;
use crate::text::trim_str;

verus! {

/// A directive that can be decoded from its raw argument text.
///
/// `decode_spec` states, for every argument text, either the decoded
/// value or the error that decoding reports; `from_context` is the
/// decoder itself, and returns exactly what `decode_spec` says.
pub trait Directive: Sized + View {
    /// What decoding yields on each argument text.
    spec fn decode_spec(ctx: Seq<char>) -> Result<Self::V, ParseErrorView>;

    /// Decodes the text between the directive's parentheses.
    fn from_context(ctx: &str) -> (r: Result<Self, ParseError>)
        ensures
            r is Ok <==> Self::decode_spec(ctx@) is Ok,
            r is Ok ==> r->Ok_0@ == Self::decode_spec(ctx@)->Ok_0,
            r is Err ==> r->Err_0@ == Self::decode_spec(ctx@)->Err_0,
    ;
}

/// `@jump(a, b, target)` or `@jump(target)`: a two-way branch with
/// choice labels, or an unconditional goto.
#[derive(Debug)]
pub struct JumpDirective {
    pub choices: Option<(String, String)>,
    pub endpoint: LazilyLoadedScript,
}

/// A script path whose parsed script is filled in on first
/// resolution and reused by later resolutions of this same value.
#[derive(Debug)]
pub struct LazilyLoadedScript {
    pub script_path: String,
    pub script: Option<Script>,
}

/// `@sprite(name, path, x, y, show)` or `@sprite(name, hide)`.
#[derive(Clone, Debug)]
pub struct SpriteDirective {
    pub name: String,
    pub sprite_path: Option<String>,
    pub x: Option<u32>,
    pub y: Option<u32>,
    pub show: bool,
}

/// `@loadbg(path)`: switch the current background.
#[derive(Clone, Debug)]
pub struct LoadBGDirective {
    pub bg_path: String,
}

/// `@cattr(character, attribute, value)`: a presentation attribute
/// of one character, decoded from hexadecimal color text.
#[derive(Clone, Debug)]
pub struct CharacterAttributeDirective {
    pub character: String,
    pub text_color: Option<u32>,
    pub dialogue_color: Option<u32>,
}

/// `@attr(path.key, value)`: a write into the attribute store.
#[derive(Clone, Debug)]
pub struct AttributeDirective {
    pub path: String,
    pub key: String,
    pub value: String,
}

/// `@<name>(args...)` for any other name: an escape hatch whose
/// semantics are entirely the caller's.
#[derive(Clone, Debug)]
pub struct CustomDirective {
    pub name: String,
    pub args: Vec<String>,
}

/// The view of a `JumpDirective`.
pub struct JumpView {
    pub choices: Option<(Seq<char>, Seq<char>)>,
    pub endpoint: LazyScriptView,
}

/// The view of a `LazilyLoadedScript`.
pub struct LazyScriptView {
    pub script_path: Seq<char>,
    pub script: Option<ScriptView>,
}

/// The view of a `SpriteDirective`.
pub struct SpriteView {
    pub name: Seq<char>,
    pub sprite_path: Option<Seq<char>>,
    pub x: Option<u32>,
    pub y: Option<u32>,
    pub show: bool,
}

/// The view of a `LoadBGDirective`.
pub struct LoadBGView {
    pub bg_path: Seq<char>,
}

/// The view of a `CharacterAttributeDirective`.
pub struct CattrView {
    pub character: Seq<char>,
    pub text_color: Option<u32>,
    pub dialogue_color: Option<u32>,
}

/// The view of an `AttributeDirective`.
pub struct AttrView {
    pub path: Seq<char>,
    pub key: Seq<char>,
    pub value: Seq<char>,
}

/// The view of a `CustomDirective`.
pub struct CustomView {
    pub name: Seq<char>,
    pub args: Seq<Seq<char>>,
}

/// The view of a `LazilyLoadedScript`: its path together with the
/// view of the script it has resolved to, if any.
pub open spec fn lazy_view(l: LazilyLoadedScript) -> LazyScriptView
    decreases l,
{
    LazyScriptView {
        script_path: l.script_path@,
        script: match l.script {
            Some(s) => Some(script_view(s)),
            None => None,
        },
    }
}

/// The view of a `JumpDirective`.
pub open spec fn jump_view(j: JumpDirective) -> JumpView
    decreases j,
{
    JumpView {
        choices: match j.choices {
            Some(c) => Some((c.0@, c.1@)),
            None => None,
        },
        endpoint: lazy_view(j.endpoint),
    }
}

impl View for SpriteDirective {
    type V = SpriteView;

    open spec fn view(&self) -> SpriteView {
        SpriteView {
            name: self.name@,
            sprite_path: match self.sprite_path {
                Some(p) => Some(p@),
                None => None,
            },
            x: self.x,
            y: self.y,
            show: self.show,
        }
    }
}

impl View for LoadBGDirective {
    type V = LoadBGView;

    open spec fn view(&self) -> LoadBGView {
        LoadBGView { bg_path: self.bg_path@ }
    }
}

impl View for CharacterAttributeDirective {
    type V = CattrView;

    open spec fn view(&self) -> CattrView {
        CattrView {
            character: self.character@,
            text_color: self.text_color,
            dialogue_color: self.dialogue_color,
        }
    }
}

impl View for AttributeDirective {
    type V = AttrView;

    open spec fn view(&self) -> AttrView {
        AttrView { path: self.path@, key: self.key@, value: self.value@ }
    }
}

impl View for CustomDirective {
    type V = CustomView;

    open spec fn view(&self) -> CustomView {
        CustomView { name: self.name@, args: self.args.deep_view() }
    }
}

impl View for JumpDirective {
    type V = JumpView;

    open spec fn view(&self) -> JumpView {
        jump_view(*self)
    }
}

impl View for LazilyLoadedScript {
    type V = LazyScriptView;

    open spec fn view(&self) -> LazyScriptView {
        lazy_view(*self)
    }
}

impl LazilyLoadedScript {
    /// A reference to the script at `script_path`, not yet resolved.
    pub fn new(script_path: &str) -> (r: Self)
        ensures
            r@.script_path == script_path@,
            r@.script is None,
    {
        Self { script_path: script_path.to_owned(), script: None }
    }
}

/// What decoding a `@jump` argument text yields: one comma-separated
/// part is an unconditional goto; three or more are two choice
/// labels and a target; exactly two is an error.  Choice labels are
/// trimmed; the target path has all whitespace removed.
pub open spec fn spec_decode_jump(ctx: Seq<char>) -> Result<JumpView, ParseErrorView> {
    let parts = spec_split(ctx, ',');
    if parts.len() == 1 {
        Ok(
            JumpView {
                choices: None,
                endpoint: LazyScriptView {
                    script_path: spec_strip_spaces(parts[0]),
                    script: None,
                },
            },
        )
    } else if parts.len() >= 3 {
        Ok(
            JumpView {
                choices: Some((spec_trim(parts[0]), spec_trim(parts[1]))),
                endpoint: LazyScriptView {
                    script_path: spec_strip_spaces(parts[2]),
                    script: None,
                },
            },
        )
    } else {
        Err(
            ParseErrorView::DirectiveError(
                "jump"@,
                "jump directive expects 1 or 3 arguments, got 2"@,
            ),
        )
    }
}

impl Directive for JumpDirective {
    open spec fn decode_spec(ctx: Seq<char>) -> Result<JumpView, ParseErrorView> {
        spec_decode_jump(ctx)
    }

    fn from_context(ctx: &str) -> (r: Result<Self, ParseError>) {
        let parts = split_char(ctx, ',');
        if parts.len() == 1 {
            let target = strip_spaces(parts[0].as_str());
            Ok(
                JumpDirective {
                    choices: None,
                    endpoint: LazilyLoadedScript { script_path: target, script: None },
                },
            )
        } else if parts.len() >= 3 {
            let a = trim_str(parts[0].as_str()).to_owned();
            let b = trim_str(parts[1].as_str()).to_owned();
            let target = strip_spaces(parts[2].as_str());
            Ok(
                JumpDirective {
                    choices: Some((a, b)),
                    endpoint: LazilyLoadedScript { script_path: target, script: None },
                },
            )
        } else {
            Err(
                ParseError::DirectiveError(
                    "jump",
                    ("jump directive expects 1 or 3 arguments, got 2").to_owned(),
                ),
            )
        }
    }
}

/// What decoding a `@sprite` argument text yields, after all
/// whitespace is removed: five comma-separated fields are a name, a
/// path, two decimal coordinates and a visibility word (`show` or
/// `hide`); two fields are a name and the word `hide`; anything else
/// is an error.
pub open spec fn spec_decode_sprite(ctx: Seq<char>) -> Result<SpriteView, ParseErrorView> {
    let parts = spec_split(spec_strip_spaces(ctx), ',');
    if parts.len() == 5 {
        if spec_parse_u32(parts[2]) is None || spec_parse_u32(parts[3]) is None {
            Err(ParseErrorView::DirectiveError("sprite"@, "x and y must be integers"@))
        } else if parts[4] == "show"@ || parts[4] == "hide"@ {
            Ok(
                SpriteView {
                    name: parts[0],
                    sprite_path: Some(parts[1]),
                    x: Some(spec_parse_u32(parts[2])->Some_0),
                    y: Some(spec_parse_u32(parts[3])->Some_0),
                    show: parts[4] == "show"@,
                },
            )
        } else {
            Err(
                ParseErrorView::DirectiveError(
                    "sprite"@,
                    "visibility must either be show or hide"@,
                ),
            )
        }
    } else if parts.len() == 2 {
        if parts[1] == "hide"@ {
            Ok(SpriteView { name: parts[0], sprite_path: None, x: None, y: None, show: false })
        } else {
            Err(
                ParseErrorView::DirectiveError(
                    "sprite"@,
                    "Non-hidden sprite directives expect 5 arguments"@,
                ),
            )
        }
    } else {
        Err(
            ParseErrorView::DirectiveError(
                "sprite"@,
                "directives expect 5 arguments for show and 2 arguments for hide"@,
            ),
        )
    }
}

impl Directive for SpriteDirective {
    open spec fn decode_spec(ctx: Seq<char>) -> Result<SpriteView, ParseErrorView> {
        spec_decode_sprite(ctx)
    }

    fn from_context(ctx: &str) -> (r: Result<Self, ParseError>) {
        let stripped = strip_spaces(ctx);
        let parts = split_char(stripped.as_str(), ',');
        if parts.len() == 5 {
            let x = parse_u32(parts[2].as_str());
            let y = parse_u32(parts[3].as_str());
            match (x, y) {
                (Some(xv), Some(yv)) => {
                    let is_show = str_eq(parts[4].as_str(), "show");
                    let is_hide = str_eq(parts[4].as_str(), "hide");
                    if is_show || is_hide {
                        Ok(
                            SpriteDirective {
                                name: parts[0].clone(),
                                sprite_path: Some(parts[1].clone()),
                                x: Some(xv),
                                y: Some(yv),
                                show: is_show,
                            },
                        )
                    } else {
                        Err(
                            ParseError::DirectiveError(
                                "sprite",
                                ("visibility must either be show or hide").to_owned(),
                            ),
                        )
                    }
                },
                _ => Err(
                    ParseError::DirectiveError("sprite", ("x and y must be integers").to_owned()),
                ),
            }
        } else if parts.len() == 2 {
            if str_eq(parts[1].as_str(), "hide") {
                Ok(
                    SpriteDirective {
                        name: parts[0].clone(),
                        sprite_path: None,
                        x: None,
                        y: None,
                        show: false,
                    },
                )
            } else {
                Err(
                    ParseError::DirectiveError(
                        "sprite",
                        ("Non-hidden sprite directives expect 5 arguments").to_owned(),
                    ),
                )
            }
        } else {
            Err(
                ParseError::DirectiveError(
                    "sprite",
                    ("directives expect 5 arguments for show and 2 arguments for hide").to_owned(),
                ),
            )
        }
    }
}

/// What decoding a `@loadbg` argument text yields: the whole
/// argument, unvalidated, as the background path.  Whether the path
/// exists is checked only when the engine reaches the directive.
pub open spec fn spec_decode_loadbg(ctx: Seq<char>) -> Result<LoadBGView, ParseErrorView> {
    Ok(LoadBGView { bg_path: ctx })
}

impl Directive for LoadBGDirective {
    open spec fn decode_spec(ctx: Seq<char>) -> Result<LoadBGView, ParseErrorView> {
        spec_decode_loadbg(ctx)
    }

    fn from_context(ctx: &str) -> (r: Result<Self, ParseError>) {
        Ok(LoadBGDirective { bg_path: ctx.to_owned() })
    }
}

/// Every part trimmed of surrounding whitespace.
pub open spec fn spec_trim_all(parts: Seq<Seq<char>>) -> Seq<Seq<char>> {
    parts.map_values(|p: Seq<char>| spec_trim(p))
}

/// What decoding a `@custom` argument text yields: a directive name
/// up to an opening parenthesis, then a comma-separated argument
/// list, each argument trimmed.  The character closing the list is
/// dropped without inspection; a missing opening parenthesis is the
/// one error.
pub open spec fn spec_decode_custom(ctx: Seq<char>) -> Result<CustomView, ParseErrorView> {
    match spec_find(ctx, '(') {
        None => Err(ParseErrorView::DirectiveError("custom"@, "expected opening ("@)),
        Some(i) => {
            let inner = if i + 1 <= ctx.len() - 1 {
                ctx.subrange(i + 1, ctx.len() - 1)
            } else {
                Seq::<char>::empty()
            };
            Ok(CustomView { name: ctx.subrange(0, i), args: spec_trim_all(spec_split(inner, ',')) })
        },
    }
}

impl Directive for CustomDirective {
    open spec fn decode_spec(ctx: Seq<char>) -> Result<CustomView, ParseErrorView> {
        spec_decode_custom(ctx)
    }

    fn from_context(ctx: &str) -> (r: Result<Self, ParseError>) {
        let n: usize = ctx.unicode_len();
        match find_char(ctx, '(') {
            None => Err(ParseError::DirectiveError("custom", ("expected opening (").to_owned())),
            Some(i) => {
                proof {
                    crate::text::lemma_spec_find(ctx@, '(');
                }
                let name = ctx.substring_char(0, i).to_owned();
                let inner = if i + 1 <= n - 1 {
                    ctx.substring_char(i + 1, n - 1)
                } else {
                    ctx.substring_char(n, n)
                };
                let parts = split_char(inner, ',');
                let ghost tparts = spec_trim_all(spec_split(inner@, ','));
                proof {
                    assert(tparts.len() == parts@.len());
                }
                let mut args: Vec<String> = Vec::new();
                let mut k: usize = 0;
                while k < parts.len()
                    invariant
                        parts.deep_view() == spec_split(inner@, ','),
                        tparts == spec_trim_all(spec_split(inner@, ',')),
                        tparts.len() == parts@.len(),
                        0 <= k <= parts.len(),
                        args@.len() == k,
                        forall|j: int| 0 <= j < k ==> args@[j]@ == tparts[j],
                    decreases parts.len() - k,
                {
                    let t = trim_str(parts[k].as_str()).to_owned();
                    proof {
                        assert(parts.deep_view()[k as int] == parts@[k as int]@);
                        assert(tparts[k as int] == spec_trim(parts.deep_view()[k as int]));
                    }
                    args.push(t);
                    k = k + 1;
                }
                proof {
                    assert forall|j: int|
                        0 <= j < args@.len() implies args.deep_view()[j] == tparts[j] by {
                        assert(args.deep_view()[j] == args@[j].deep_view());
                    }
                    assert(args.deep_view() =~= tparts);
                }
                Ok(CustomDirective { name, args })
            },
        }
    }
}

/// What decoding a `@cattr` argument text yields: a character name,
/// an attribute name, and a value, comma-separated and trimmed.  The
/// one recognized attribute is `dialogue_color`, whose value must be
/// hexadecimal; parts past the third are ignored.
pub open spec fn spec_decode_cattr(ctx: Seq<char>) -> Result<CattrView, ParseErrorView> {
    let parts = spec_split(ctx, ',');
    if parts.len() < 2 {
        Err(ParseErrorView::DirectiveError("cattr"@, "expected attribute"@))
    } else if parts.len() < 3 {
        Err(ParseErrorView::DirectiveError("cattr"@, "expected value of attribute"@))
    } else {
        let attribute = spec_trim(parts[1]);
        let value = spec_trim(parts[2]);
        if attribute == "dialogue_color"@ {
            match spec_parse_hex_u32(value) {
                Some(c) => Ok(
                    CattrView {
                        character: spec_trim(parts[0]),
                        text_color: None,
                        dialogue_color: Some(c),
                    },
                ),
                None => Err(
                    ParseErrorView::DirectiveError(
                        "cattr"@,
                        "cannot parse dialogue_color "@ + value,
                    ),
                ),
            }
        } else {
            Err(ParseErrorView::DirectiveError("cattr"@, "unknown attribute "@ + attribute))
        }
    }
}

impl Directive for CharacterAttributeDirective {
    open spec fn decode_spec(ctx: Seq<char>) -> Result<CattrView, ParseErrorView> {
        spec_decode_cattr(ctx)
    }

    fn from_context(ctx: &str) -> (r: Result<Self, ParseError>) {
        let parts = split_char(ctx, ',');
        if parts.len() < 2 {
            Err(ParseError::DirectiveError("cattr", ("expected attribute").to_owned()))
        } else if parts.len() < 3 {
            Err(ParseError::DirectiveError("cattr", ("expected value of attribute").to_owned()))
        } else {
            let attribute = trim_str(parts[1].as_str());
            let value = trim_str(parts[2].as_str());
            if str_eq(attribute, "dialogue_color") {
                match parse_hex_u32(value) {
                    Some(c) => Ok(
                        CharacterAttributeDirective {
                            character: trim_str(parts[0].as_str()).to_owned(),
                            text_color: None,
                            dialogue_color: Some(c),
                        },
                    ),
                    None => Err(
                        ParseError::DirectiveError(
                            "cattr",
                            ("cannot parse dialogue_color ").to_owned().concat(value),
                        ),
                    ),
                }
            } else {
                Err(
                    ParseError::DirectiveError(
                        "cattr",
                        ("unknown attribute ").to_owned().concat(attribute),
                    ),
                )
            }
        }
    }
}

/// What decoding an `@attr` argument text yields: the first
/// comma-separated part is a dotted location, split at its last dot
/// into a path and a key (the key shedding surrounding dots); the
/// second part is the value; both parts trimmed, later parts
/// ignored.  A missing second part is the one error.
pub open spec fn spec_decode_attr(ctx: Seq<char>) -> Result<AttrView, ParseErrorView> {
    let parts = spec_split(ctx, ',');
    if parts.len() < 2 {
        Err(ParseErrorView::DirectiveError("attr"@, "expected value"@))
    } else {
        let field = spec_trim(parts[0]);
        let value = spec_trim(parts[1]);
        let i = match spec_rfind(field, '.') {
            Some(i) => i,
            None => 0,
        };
        Ok(
            AttrView {
                path: field.subrange(0, i),
                key: spec_trim_char(field.subrange(i, field.len() as int), '.'),
                value: value,
            },
        )
    }
}

impl Directive for AttributeDirective {
    open spec fn decode_spec(ctx: Seq<char>) -> Result<AttrView, ParseErrorView> {
        spec_decode_attr(ctx)
    }

    fn from_context(ctx: &str) -> (r: Result<Self, ParseError>) {
        let parts = split_char(ctx, ',');
        if parts.len() < 2 {
            Err(ParseError::DirectiveError("attr", ("expected value").to_owned()))
        } else {
            let field = trim_str(parts[0].as_str());
            let value = trim_str(parts[1].as_str()).to_owned();
            let n: usize = field.unicode_len();
            let i = match rfind_char(field, '.') {
                Some(i) => i,
                None => 0,
            };
            proof {
                crate::text::lemma_spec_rfind(field@, '.');
            }
            let path = field.substring_char(0, i).to_owned();
            let key = trim_char_str(field.substring_char(i, n), '.').to_owned();
            Ok(AttributeDirective { path, key, value })
        }
    }
}

} // verus!
