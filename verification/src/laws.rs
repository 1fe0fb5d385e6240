//! The engine's playback laws, stated over the step relation that
//! `Engine::next` is proved to implement.

use vstd::prelude::*;

use crate::attributes::AttributeValue;
use crate::attributes::lemma_updated_get_segs;
use crate::attributes::spec_get_segs;
use crate::attributes::spec_updated;
use crate::directives::JumpDirective;
use crate::directives::SpriteDirective;
use crate::engine::Engine;
use crate::engine::engine_wf;
use crate::engine::lemma_remove_sprite_props;
use crate::engine::lemma_sort_sprites_props;
use crate::engine::spec_has_sprite;
use crate::engine::spec_step;
use crate::errors::EngineError;
use crate::script::ScriptContext;
use crate::script::ScriptDirective;

verus! {

/// Playback makes progress and never strays: a successful step from
/// a live cursor either advances the cursor by exactly one within
/// the same script, or lands at the start of the script a jump
/// resolved to; a successful step past the end changes nothing; and
/// a failing step moves neither the cursor nor the script, nor any
/// scene state but the recorded background path.  Together with
/// `lemma_step_measure`, replaying `next(false)` can only run
/// forever by being fed fresh scripts: between two supplies it
/// terminates.
pub proof fn lemma_step_progress(
    pre: Engine,
    choice: bool,
    post: Engine,
    r: Result<(), EngineError>,
)
    requires
        spec_step(pre, choice, post, r),
    ensures
        r is Ok && pre.iscript < pre.script.ctx@.len() ==> (post.script == pre.script
            && post.iscript == pre.iscript + 1) || post.iscript == 0,
        r is Ok && pre.iscript >= pre.script.ctx@.len() ==> post == pre,
        r is Err ==> post.script == pre.script && post.iscript == pre.iscript && post.sprites
            == pre.sprites && post.loaded_bgs == pre.loaded_bgs && post.attributes
            == pre.attributes,
{
    if pre.iscript < pre.script.ctx@.len() {
        match pre.script.ctx@[pre.iscript as int] {
            ScriptContext::Dialogue(d) => {},
            ScriptContext::Directive(dir) => match dir {
                ScriptDirective::Jump(j) => {},
                _ => {},
            },
        }
    } else {
        if r is Ok {
            assert(post.script == pre.script && post.iscript == pre.iscript && post.sprites
                == pre.sprites && post.loaded_bgs == pre.loaded_bgs && post.bg_path == pre.bg_path
                && post.attributes == pre.attributes);
        }
    }
}

/// `@jump(target)`, no choices: one `next` with either boolean,
/// once the target is resolved, always lands at the target's first
/// event.
pub proof fn lemma_unconditional_jump(
    pre: Engine,
    choice: bool,
    post: Engine,
    r: Result<(), EngineError>,
    j: JumpDirective,
)
    requires
        pre.iscript < pre.script.ctx@.len(),
        pre.script.ctx@[pre.iscript as int] == ScriptContext::Directive(ScriptDirective::Jump(j)),
        j.choices is None,
        j.endpoint.script is Some,
        spec_step(pre, choice, post, r),
    ensures
        r is Ok,
        post.script == j.endpoint.script->Some_0,
        post.iscript == 0,
{
}

/// `@jump(a, b, target)`: `next(false)` never follows the target —
/// the cursor just moves past the jump — and `next(true)`, once the
/// target is resolved, always follows it, resetting the cursor to
/// its first event.
pub proof fn lemma_choice_jump(
    pre: Engine,
    choice: bool,
    post: Engine,
    r: Result<(), EngineError>,
    j: JumpDirective,
)
    requires
        pre.iscript < pre.script.ctx@.len(),
        pre.script.ctx@[pre.iscript as int] == ScriptContext::Directive(ScriptDirective::Jump(j)),
        j.choices is Some,
        spec_step(pre, choice, post, r),
    ensures
        !choice ==> r is Ok && post.script == pre.script && post.iscript == pre.iscript + 1,
        choice && j.endpoint.script is Some ==> r is Ok && post.script
            == j.endpoint.script->Some_0 && post.iscript == 0,
{
}

/// A hidden sprite does not reappear: after `@sprite(x, hide)` is
/// stepped, a later `@attr` write — even one that rewrites a sprite
/// priority and so re-sorts the registry — cannot bring `x` back.
pub proof fn lemma_hidden_sprite_stays_hidden(
    pre: Engine,
    mid: Engine,
    post: Engine,
    c1: bool,
    c2: bool,
    s: SpriteDirective,
)
    requires
        engine_wf(pre),
        pre.iscript < pre.script.ctx@.len(),
        pre.script.ctx@[pre.iscript as int] == ScriptContext::Directive(
            ScriptDirective::Sprite(s),
        ),
        !s.show,
        spec_step(pre, c1, mid, Ok(())),
        mid.iscript < mid.script.ctx@.len(),
        mid.script.ctx@[mid.iscript as int] is Directive,
        mid.script.ctx@[mid.iscript as int]->Directive_0 is Attr,
        spec_step(mid, c2, post, Ok(())),
    ensures
        !spec_has_sprite(post.sprites@, s.name@),
{
    lemma_remove_sprite_props(pre.sprites@, s.name@);
    lemma_sort_sprites_props(mid.sprites@, post.attributes);
}

/// A sprite stays gone: a name absent from the registry is still
/// absent after any step whose event is not a `show` of that very
/// name.  In particular, after `@sprite(x, hide)` no run of
/// attribute writes, priority re-sorts, background loads, dialogue
/// or jumps can bring `x` back.
pub proof fn lemma_absent_sprite_preserved(
    pre: Engine,
    choice: bool,
    post: Engine,
    r: Result<(), EngineError>,
    name: Seq<char>,
)
    requires
        engine_wf(pre),
        spec_step(pre, choice, post, r),
        !spec_has_sprite(pre.sprites@, name),
        pre.iscript < pre.script.ctx@.len() ==> !(pre.script.ctx@[pre.iscript as int] matches
            ScriptContext::Directive(ScriptDirective::Sprite(s)) && s.show && s.name@ == name),
    ensures
        !spec_has_sprite(post.sprites@, name),
{
    if pre.iscript < pre.script.ctx@.len() {
        match pre.script.ctx@[pre.iscript as int] {
            ScriptContext::Directive(ScriptDirective::Sprite(s)) => {
                if s.show {
                    crate::engine::lemma_upsert_sprite_props(pre.sprites@, s, pre.attributes);
                } else {
                    lemma_remove_sprite_props(pre.sprites@, s.name@);
                }
            },
            ScriptContext::Directive(ScriptDirective::Attr(a)) => {
                lemma_sort_sprites_props(pre.sprites@, post.attributes);
            },
            _ => {},
        }
    }
}

/// Writing an attribute and reading the written path back yields
/// exactly the written leaf: the read walks the written segments
/// and ends at the key, and finds the value.
pub proof fn lemma_attribute_roundtrip(
    olde: Seq<(String, AttributeValue)>,
    newe: Seq<(String, AttributeValue)>,
    segs: Seq<Seq<char>>,
    key: Seq<char>,
    value: String,
)
    requires
        spec_updated(olde, newe, segs, 0, key, value),
    ensures
        spec_get_segs(newe, segs.push(key), 0) == Some(AttributeValue::Value(value)),
{
    lemma_updated_get_segs(olde, newe, segs, 0, key, value);
}

} // verus!
