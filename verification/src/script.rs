//! The parsed form of a script: an ordered, immutable list of
//! events, each either a dialogue block or a directive.

use vstd::prelude::*;
use vstd::string::*;

use crate::directives::Directive;
use crate::directives::spec_decode_attr;
use crate::directives::spec_decode_custom;
use crate::directives::spec_decode_jump;
use crate::directives::spec_decode_loadbg;
use crate::directives::spec_decode_sprite;
use crate::errors::ParseError;
use crate::errors::ParseErrorView;
use crate::errors::spec_error_text;
use crate::text::find_char;
use crate::text::lemma_spec_find;
use crate::text::lemma_spec_rfind;
use crate::text::rfind_char;
use crate::text::spec_find;
use crate::text::spec_rfind;
use crate::text::spec_split;
use crate::text::spec_strip_char;
use crate::text::spec_trim;
use crate::text::split_char;
use crate::text::str_eq;
use crate::text::strip_char;
use crate::text::trim_str;

use crate::directives::AttrView;
use crate::directives::AttributeDirective;
use crate::directives::CustomDirective;
use crate::directives::CustomView;
use crate::directives::JumpDirective;
use crate::directives::JumpView;
use crate::directives::LoadBGView;
use crate::directives::SpriteView;
use crate::directives::LoadBGDirective;
use crate::directives::SpriteDirective;
use crate::directives::jump_view;

verus! {

/// A fully parsed script: its source name and its events in order.
/// Immutable once constructed; the playback engine replaces a script
/// wholesale when it follows a jump, never edits one.
#[derive(Debug)]
pub struct Script {
    /// Name of the script source.
    pub name: String,
    /// The parsed events, in source order.
    pub ctx: Vec<ScriptContext>,
}

/// One event of a script.
#[derive(Debug)]
pub enum ScriptContext {
    Dialogue(ScriptDialogue),
    Directive(ScriptDirective),
}

/// A `[Character]`-headed run of dialogue lines.
#[derive(Clone, Debug)]
pub struct ScriptDialogue {
    pub character_name: String,
    pub dialogues: Vec<String>,
}

/// A typed directive event.
#[derive(Debug)]
pub enum ScriptDirective {
    Jump(JumpDirective),
    Sprite(SpriteDirective),
    LoadBG(LoadBGDirective),
    Attr(AttributeDirective),
    Custom(CustomDirective),
}

/// The view of a `Script`.
pub struct ScriptView {
    pub name: Seq<char>,
    pub events: Seq<ContextView>,
}

/// The view of a `ScriptContext`.
pub enum ContextView {
    Dialogue(DialogueView),
    Directive(DirectiveView),
}

/// The view of a `ScriptDirective`.
pub enum DirectiveView {
    Jump(JumpView),
    Sprite(SpriteView),
    LoadBG(LoadBGView),
    Attr(AttrView),
    Custom(CustomView),
}

/// The view of a `ScriptDialogue`.
pub struct DialogueView {
    pub character_name: Seq<char>,
    pub dialogues: Seq<Seq<char>>,
}

/// The view of a `Script`.
pub open spec fn script_view(s: Script) -> ScriptView
    decreases s,
{
    ScriptView { name: s.name@, events: ctx_views(s.ctx@) }
}

/// The views of a sequence of events.
pub open spec fn ctx_views(cs: Seq<ScriptContext>) -> Seq<ContextView>
    decreases cs,
{
    if cs.len() == 0 {
        Seq::<ContextView>::empty()
    } else {
        seq![ctx_view(cs[0])] + ctx_views(cs.drop_first())
    }
}

/// The view of one event.
pub open spec fn ctx_view(c: ScriptContext) -> ContextView
    decreases c,
{
    match c {
        ScriptContext::Dialogue(d) => ContextView::Dialogue(
            DialogueView { character_name: d.character_name@, dialogues: d.dialogues.deep_view() },
        ),
        ScriptContext::Directive(d) => ContextView::Directive(directive_view(d)),
    }
}

/// The view of one directive event.
pub open spec fn directive_view(d: ScriptDirective) -> DirectiveView
    decreases d,
{
    match d {
        ScriptDirective::Jump(j) => DirectiveView::Jump(jump_view(j)),
        ScriptDirective::Sprite(s) => DirectiveView::Sprite(s@),
        ScriptDirective::LoadBG(b) => DirectiveView::LoadBG(b@),
        ScriptDirective::Attr(a) => DirectiveView::Attr(a@),
        ScriptDirective::Custom(c) => DirectiveView::Custom(c@),
    }
}

impl View for Script {
    type V = ScriptView;

    open spec fn view(&self) -> ScriptView {
        script_view(*self)
    }
}

impl View for ScriptContext {
    type V = ContextView;

    open spec fn view(&self) -> ContextView {
        ctx_view(*self)
    }
}

impl View for ScriptDialogue {
    type V = DialogueView;

    open spec fn view(&self) -> DialogueView {
        DialogueView {
            character_name: self.character_name@,
            dialogues: self.dialogues.deep_view(),
        }
    }
}

impl View for ScriptDirective {
    type V = DirectiveView;

    open spec fn view(&self) -> DirectiveView {
        directive_view(*self)
    }
}

/// `ctx_views` maps the view over the sequence pointwise.
pub proof fn lemma_ctx_views(cs: Seq<ScriptContext>)
    ensures
        ctx_views(cs).len() == cs.len(),
        forall|i: int| 0 <= i < cs.len() ==> ctx_views(cs)[i] == ctx_view(cs[i]),
    decreases cs.len(),
{
    if cs.len() > 0 {
        lemma_ctx_views(cs.drop_first());
    }
}

/// Appending one event appends its view.
pub proof fn lemma_ctx_views_push(cs: Seq<ScriptContext>, c: ScriptContext)
    ensures
        ctx_views(cs.push(c)) == ctx_views(cs).push(ctx_view(c)),
{
    lemma_ctx_views(cs);
    lemma_ctx_views(cs.push(c));
    assert(ctx_views(cs.push(c)) =~= ctx_views(cs).push(ctx_view(c)));
}

/// Replacing one event replaces its view.
pub proof fn lemma_ctx_views_update(cs: Seq<ScriptContext>, i: int, c: ScriptContext)
    requires
        0 <= i < cs.len(),
    ensures
        ctx_views(cs.update(i, c)) == ctx_views(cs).update(i, ctx_view(c)),
{
    lemma_ctx_views(cs);
    lemma_ctx_views(cs.update(i, c));
    assert(ctx_views(cs.update(i, c)) =~= ctx_views(cs).update(i, ctx_view(c)));
}

/// What parsing one source line does to the events parsed so far:
/// leaves them unchanged (blank and comment lines), opens a dialogue
/// (`[Name]`), appends a decoded directive (`@name(args)`), appends
/// a text line to the open dialogue, or fails.
pub open spec fn spec_parse_line(
    line: Seq<char>,
    name: Seq<char>,
    lineno: int,
    acc: Seq<ContextView>,
) -> Result<Seq<ContextView>, ParseErrorView> {
    if line.len() == 0 {
        Ok(acc)
    } else if line[0] == '[' {
        match spec_rfind(line, ']') {
            None => Err(
                ParseErrorView::SyntaxError(name, lineno, line.len() as int, "Expected closing ]"@),
            ),
            Some(iend) => Ok(
                acc.push(
                    ContextView::Dialogue(
                        DialogueView {
                            character_name: line.subrange(1, iend),
                            dialogues: Seq::<Seq<char>>::empty(),
                        },
                    ),
                ),
            ),
        }
    } else if line[0] == '#' {
        Ok(acc)
    } else if line[0] == '@' {
        spec_parse_directive_line(line, name, lineno, acc)
    } else if spec_trim(line).len() == 0 {
        Ok(acc)
    } else if acc.len() > 0 && acc.last() is Dialogue {
        let d = acc.last()->Dialogue_0;
        Ok(
            acc.update(
                acc.len() - 1,
                ContextView::Dialogue(
                    DialogueView {
                        character_name: d.character_name,
                        dialogues: d.dialogues.push(spec_strip_char(line, '\r')),
                    },
                ),
            ),
        )
    } else {
        Err(ParseErrorView::SyntaxError(name, lineno, 0, "Unmatched dialogue with character"@))
    }
}

/// What parsing a `@name(args)` line does: the text between `@` and
/// the first `(` picks the decoder, the text between that `(` and
/// the last `)` is its argument; decoder errors and unknown names
/// become syntax errors at this line.
pub open spec fn spec_parse_directive_line(
    line: Seq<char>,
    name: Seq<char>,
    lineno: int,
    acc: Seq<ContextView>,
) -> Result<Seq<ContextView>, ParseErrorView> {
    match spec_find(line, '(') {
        None => Err(
            ParseErrorView::SyntaxError(name, lineno, line.len() as int, "Expected ("@),
        ),
        Some(iopen) => match spec_rfind(line, ')') {
            None => Err(
                ParseErrorView::SyntaxError(
                    name,
                    lineno,
                    line.len() as int,
                    "Expected closing parentheses"@,
                ),
            ),
            Some(iclose) => {
                if iclose < iopen + 1 {
                    Err(
                        ParseErrorView::SyntaxError(
                            name,
                            lineno,
                            line.len() as int,
                            "Expected closing parentheses"@,
                        ),
                    )
                } else {
                    let dname = line.subrange(1, iopen);
                    let args = line.subrange(iopen + 1, iclose);
                    if dname == "jump"@ {
                        spec_push_decoded(
                            match spec_decode_jump(args) {
                                Ok(v) => Ok(DirectiveView::Jump(v)),
                                Err(e) => Err(e),
                            },
                            name,
                            lineno,
                            line.len() as int,
                            acc,
                        )
                    } else if dname == "sprite"@ {
                        spec_push_decoded(
                            match spec_decode_sprite(args) {
                                Ok(v) => Ok(DirectiveView::Sprite(v)),
                                Err(e) => Err(e),
                            },
                            name,
                            lineno,
                            line.len() as int,
                            acc,
                        )
                    } else if dname == "loadbg"@ {
                        spec_push_decoded(
                            match spec_decode_loadbg(args) {
                                Ok(v) => Ok(DirectiveView::LoadBG(v)),
                                Err(e) => Err(e),
                            },
                            name,
                            lineno,
                            line.len() as int,
                            acc,
                        )
                    } else if dname == "attr"@ {
                        spec_push_decoded(
                            match spec_decode_attr(args) {
                                Ok(v) => Ok(DirectiveView::Attr(v)),
                                Err(e) => Err(e),
                            },
                            name,
                            lineno,
                            line.len() as int,
                            acc,
                        )
                    } else if dname == "custom"@ {
                        spec_push_decoded(
                            match spec_decode_custom(args) {
                                Ok(v) => Ok(DirectiveView::Custom(v)),
                                Err(e) => Err(e),
                            },
                            name,
                            lineno,
                            line.len() as int,
                            acc,
                        )
                    } else {
                        Err(
                            ParseErrorView::SyntaxError(
                                name,
                                lineno,
                                line.len() as int,
                                "Unknown directive "@ + dname,
                            ),
                        )
                    }
                }
            },
        },
    }
}

/// Appends a decoded directive to the events, or wraps the
/// decoder's error into a syntax error at the line.
pub open spec fn spec_push_decoded(
    decoded: Result<DirectiveView, ParseErrorView>,
    name: Seq<char>,
    lineno: int,
    col: int,
    acc: Seq<ContextView>,
) -> Result<Seq<ContextView>, ParseErrorView> {
    match decoded {
        Ok(v) => Ok(acc.push(ContextView::Directive(v))),
        Err(e) => Err(ParseErrorView::SyntaxError(name, lineno, col, spec_error_text(e))),
    }
}

/// What parsing the lines from `i` on yields, having already parsed
/// events `acc`.
pub open spec fn spec_parse_rest(
    lines: Seq<Seq<char>>,
    i: int,
    name: Seq<char>,
    acc: Seq<ContextView>,
) -> Result<Seq<ContextView>, ParseErrorView>
    decreases lines.len() - i,
{
    if i < 0 || i >= lines.len() {
        Ok(acc)
    } else {
        match spec_parse_line(lines[i], name, i + 1, acc) {
            Err(e) => Err(e),
            Ok(acc2) => spec_parse_rest(lines, i + 1, name, acc2),
        }
    }
}

/// What parsing a whole source text yields: the events of each line
/// in order, under the given script name, or the first error.
pub open spec fn spec_parse(source: Seq<char>, name: Seq<char>) -> Result<
    ScriptView,
    ParseErrorView,
> {
    match spec_parse_rest(spec_split(source, '\n'), 0, name, Seq::<ContextView>::empty()) {
        Ok(events) => Ok(ScriptView { name: name, events }),
        Err(e) => Err(e),
    }
}

/// Appends one text line to a dialogue block.
fn push_dialogue_line(d: &mut ScriptDialogue, line: String)
    ensures
        final(d)@.character_name == old(d)@.character_name,
        final(d)@.dialogues == old(d)@.dialogues.push(line@),
{
    let ghost prev = d.dialogues.deep_view();
    let ghost prevv = d.dialogues@;
    d.dialogues.push(line);
    proof {
        assert forall|j: int|
            0 <= j < d.dialogues@.len() implies d.dialogues.deep_view()[j] == prev.push(line@)[j]
        by {
            assert(d.dialogues.deep_view()[j] == d.dialogues@[j].deep_view());
            if j < prevv.len() {
                assert(prev[j] == prevv[j].deep_view());
                assert(d.dialogues@[j] == prevv[j]);
            }
        }
        assert(d.dialogues.deep_view() =~= prev.push(line@));
    }
}

/// Parses one line, extending the events parsed so far exactly as
/// `spec_parse_line` states, or reporting that line's error.
fn parse_line(line: &str, name: &str, lineno: usize, ctx: &mut Vec<ScriptContext>) -> (r: Result<
    (),
    ParseError,
>)
    ensures
        r is Ok ==> spec_parse_line(line@, name@, lineno as int, ctx_views(old(ctx)@)) == Ok::<
            Seq<ContextView>,
            ParseErrorView,
        >(ctx_views(final(ctx)@)),
        r is Err ==> spec_parse_line(line@, name@, lineno as int, ctx_views(old(ctx)@)) == Err::<
            Seq<ContextView>,
            ParseErrorView,
        >(r->Err_0@),
{
    let n: usize = line.unicode_len();
    if n == 0 {
        return Ok(());
    }
    let c0 = line.get_char(0);
    if c0 == '[' {
        match rfind_char(line, ']') {
            None => Err(
                ParseError::SyntaxError(name.to_owned(), lineno, n, ("Expected closing ]").to_owned()),
            ),
            Some(iend) => {
                proof {
                    lemma_spec_rfind(line@, ']');
                }
                let d = ScriptDialogue {
                    character_name: line.substring_char(1, iend).to_owned(),
                    dialogues: Vec::new(),
                };
                proof {
                    assert(d.dialogues.deep_view() =~= Seq::<Seq<char>>::empty());
                }
                let ghost prev = ctx@;
                ctx.push(ScriptContext::Dialogue(d));
                proof {
                    lemma_ctx_views_push(prev, ctx@.last());
                    assert(ctx@ == prev.push(ctx@.last()));
                }
                Ok(())
            },
        }
    } else if c0 == '#' {
        Ok(())
    } else if c0 == '@' {
        parse_directive_line(line, name, lineno, ctx)
    } else {
        let trimmed = trim_str(line);
        if trimmed.unicode_len() == 0 {
            return Ok(());
        }
        if ctx.len() == 0 {
            return Err(
                ParseError::SyntaxError(
                    name.to_owned(),
                    lineno,
                    0,
                    ("Unmatched dialogue with character").to_owned(),
                ),
            );
        }
        let ghost prev = ctx@;
        let last = ctx.pop().unwrap();
        match last {
            ScriptContext::Dialogue(mut d) => {
                push_dialogue_line(&mut d, strip_char(line, '\r'));
                ctx.push(ScriptContext::Dialogue(d));
                proof {
                    lemma_ctx_views_update(prev, prev.len() - 1, ctx@.last());
                    assert(ctx@ =~= prev.update(prev.len() - 1, ctx@.last()));
                    lemma_ctx_views(prev);
                    assert(ctx_views(prev).last() == ctx_view(prev.last()));
                }
                Ok(())
            },
            other => {
                ctx.push(other);
                proof {
                    lemma_ctx_views(prev);
                    assert(ctx_views(prev).last() == ctx_view(prev.last()));
                }
                Err(
                    ParseError::SyntaxError(
                        name.to_owned(),
                        lineno,
                        0,
                        ("Unmatched dialogue with character").to_owned(),
                    ),
                )
            },
        }
    }
}

/// Parses a `@name(args)` line, extending the events exactly as
/// `spec_parse_directive_line` states.
fn parse_directive_line(line: &str, name: &str, lineno: usize, ctx: &mut Vec<ScriptContext>) -> (r:
    Result<(), ParseError>)
    requires
        line@.len() > 0,
        line@[0] == '@',
    ensures
        r is Ok ==> spec_parse_directive_line(line@, name@, lineno as int, ctx_views(old(ctx)@))
            == Ok::<Seq<ContextView>, ParseErrorView>(ctx_views(final(ctx)@)),
        r is Err ==> spec_parse_directive_line(line@, name@, lineno as int, ctx_views(old(ctx)@))
            == Err::<Seq<ContextView>, ParseErrorView>(r->Err_0@),
{
    let n: usize = line.unicode_len();
    let iopen = match find_char(line, '(') {
        None => {
            return Err(
                ParseError::SyntaxError(name.to_owned(), lineno, n, ("Expected (").to_owned()),
            );
        },
        Some(i) => i,
    };
    proof {
        lemma_spec_find(line@, '(');
    }
    let iclose = match rfind_char(line, ')') {
        None => {
            return Err(
                ParseError::SyntaxError(
                    name.to_owned(),
                    lineno,
                    n,
                    ("Expected closing parentheses").to_owned(),
                ),
            );
        },
        Some(i) => i,
    };
    proof {
        lemma_spec_rfind(line@, ')');
    }
    if iclose < iopen + 1 {
        return Err(
            ParseError::SyntaxError(
                name.to_owned(),
                lineno,
                n,
                ("Expected closing parentheses").to_owned(),
            ),
        );
    }
    let dname = line.substring_char(1, iopen);
    let args = line.substring_char(iopen + 1, iclose);
    let ghost prev = ctx@;
    if str_eq(dname, "jump") {
        match crate::directives::JumpDirective::from_context(args) {
            Ok(d) => {
                ctx.push(ScriptContext::Directive(ScriptDirective::Jump(d)));
                proof {
                    lemma_ctx_views_push(prev, ctx@.last());
                    assert(ctx@ == prev.push(ctx@.last()));
                }
                Ok(())
            },
            Err(e) => Err(
                ParseError::SyntaxError(name.to_owned(), lineno, n, e.error_text()),
            ),
        }
    } else if str_eq(dname, "sprite") {
        match crate::directives::SpriteDirective::from_context(args) {
            Ok(d) => {
                ctx.push(ScriptContext::Directive(ScriptDirective::Sprite(d)));
                proof {
                    lemma_ctx_views_push(prev, ctx@.last());
                    assert(ctx@ == prev.push(ctx@.last()));
                }
                Ok(())
            },
            Err(e) => Err(
                ParseError::SyntaxError(name.to_owned(), lineno, n, e.error_text()),
            ),
        }
    } else if str_eq(dname, "loadbg") {
        match crate::directives::LoadBGDirective::from_context(args) {
            Ok(d) => {
                ctx.push(ScriptContext::Directive(ScriptDirective::LoadBG(d)));
                proof {
                    lemma_ctx_views_push(prev, ctx@.last());
                    assert(ctx@ == prev.push(ctx@.last()));
                }
                Ok(())
            },
            Err(e) => Err(
                ParseError::SyntaxError(name.to_owned(), lineno, n, e.error_text()),
            ),
        }
    } else if str_eq(dname, "attr") {
        match crate::directives::AttributeDirective::from_context(args) {
            Ok(d) => {
                ctx.push(ScriptContext::Directive(ScriptDirective::Attr(d)));
                proof {
                    lemma_ctx_views_push(prev, ctx@.last());
                    assert(ctx@ == prev.push(ctx@.last()));
                }
                Ok(())
            },
            Err(e) => Err(
                ParseError::SyntaxError(name.to_owned(), lineno, n, e.error_text()),
            ),
        }
    } else if str_eq(dname, "custom") {
        match crate::directives::CustomDirective::from_context(args) {
            Ok(d) => {
                ctx.push(ScriptContext::Directive(ScriptDirective::Custom(d)));
                proof {
                    lemma_ctx_views_push(prev, ctx@.last());
                    assert(ctx@ == prev.push(ctx@.last()));
                }
                Ok(())
            },
            Err(e) => Err(
                ParseError::SyntaxError(name.to_owned(), lineno, n, e.error_text()),
            ),
        }
    } else {
        Err(
            ParseError::SyntaxError(
                name.to_owned(),
                lineno,
                n,
                ("Unknown directive ").to_owned().concat(dname),
            ),
        )
    }
}

impl Script {
    /// Parses a complete source text into a script named `name`:
    /// every line in order, as `spec_parse` states.  There is no
    /// partially parsed script: the first faulty line fails the
    /// whole construction.
    pub fn from_source(source: &str, name: &str) -> (r: Result<Script, ParseError>)
        ensures
            r is Ok <==> spec_parse(source@, name@) is Ok,
            r is Ok ==> r->Ok_0@ == spec_parse(source@, name@)->Ok_0,
            r is Err ==> r->Err_0@ == spec_parse(source@, name@)->Err_0,
    {
        let lines = split_char(source, '\n');
        let nl = lines.len();
        let mut ctx: Vec<ScriptContext> = Vec::new();
        let mut i: usize = 0;
        proof {
            assert(ctx_views(ctx@) =~= Seq::<ContextView>::empty());
        }
        while i < nl
            invariant
                nl == lines@.len(),
                lines.deep_view() == spec_split(source@, '\n'),
                0 <= i <= nl,
                spec_parse_rest(lines.deep_view(), 0, name@, Seq::<ContextView>::empty())
                    == spec_parse_rest(lines.deep_view(), i as int, name@, ctx_views(ctx@)),
            decreases nl - i,
        {
            proof {
                assert(lines.deep_view()[i as int] == lines@[i as int]@);
            }
            let r = parse_line(lines[i].as_str(), name, i + 1, &mut ctx);
            match r {
                Ok(u) => {},
                Err(e) => {
                    return Err(e);
                },
            }
            i = i + 1;
        }
        let script = Script { name: name.to_owned(), ctx };
        Ok(script)
    }
}

} // verus!
