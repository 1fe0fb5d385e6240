//! The playback engine: owns the current script and a cursor into
//! it, the sprite registry, the current background, and the
//! attribute store, and advances one event at a time.
//!
//! The engine never performs I/O.  When a step needs a resource that
//! only the caller can produce — the parsed script a jump targets,
//! or a decoded background image — the step fails with the resource's
//! path and leaves the cursor unmoved; the caller supplies the
//! resource (`supply_script`, `supply_asset`) and retries the same
//! step.  Side effects of a step always happen before the cursor
//! advances past the directive, and a failing step never moves the
//! cursor.

use vstd::prelude::*;
use vstd::string::*;

use crate::attributes::AttributeValue;
use crate::attributes::Attributes;
use crate::attributes::spec_get_path;
use crate::attributes::spec_updated;
use crate::directives::AttributeDirective;
use crate::directives::SpriteDirective;
use crate::errors::EngineError;
use crate::errors::ParseError;
use crate::numbers::parse_i64;
use crate::numbers::spec_parse_i64;
use crate::script::Script;
use crate::script::ScriptContext;
use crate::script::ScriptDirective;
use crate::script::spec_parse;
use crate::text::spec_split;
use crate::text::split_char;
use crate::text::str_eq;

verus! {

/// The playback engine's state.  The fields are public so that the
/// contracts can speak of them; they are meant to be changed only
/// through the engine's methods.
pub struct Engine {
    /// The script being played.  Replaced wholesale when a jump is
    /// followed.
    pub script: Script,
    /// The cursor: the index of the current event, `ctx.len()` when
    /// playback has ended.
    pub iscript: usize,
    /// The active sprites, unique by name, ordered by priority.
    pub sprites: Vec<SpriteDirective>,
    /// The background paths whose decoded assets the caller has
    /// confirmed.
    pub loaded_bgs: Vec<String>,
    /// The current background path, if any.
    pub bg_path: Option<String>,
    /// The scene's attribute store.
    pub attributes: Attributes,
}

/// Well-formedness: the cursor never points past the event list,
/// and no two registry entries share a name.
pub open spec fn engine_wf(e: Engine) -> bool {
    &&& e.iscript <= e.script.ctx@.len()
    &&& forall|i: int, j: int|
        0 <= i < j < e.sprites@.len() ==> e.sprites@[i].name@ != e.sprites@[j].name@
}

/// Whether some string in the sequence reads as `s`.
pub open spec fn spec_has_str(v: Seq<String>, s: Seq<char>) -> bool {
    exists|j: int| 0 <= j < v.len() && v[j]@ == s
}

/// A sprite's priority: the leaf at `sprite.<name>.priority`, read
/// as a signed decimal number; 0 when the leaf is missing, is a
/// subtree, or does not parse.
pub open spec fn spec_priority(attrs: Attributes, name: Seq<char>) -> int {
    match spec_get_path(attrs, "sprite."@ + name + ".priority"@) {
        Some(AttributeValue::Value(v)) => match spec_parse_i64(v@) {
            Some(p) => p as int,
            None => 0,
        },
        _ => 0,
    }
}

/// The registry without its first entry named `name` (there is at
/// most one); unchanged when no entry has that name.
pub open spec fn spec_remove_sprite(sprites: Seq<SpriteDirective>, name: Seq<char>) -> Seq<
    SpriteDirective,
>
    decreases sprites.len(),
{
    if sprites.len() == 0 {
        sprites
    } else if sprites[0].name@ == name {
        sprites.drop_first()
    } else {
        seq![sprites[0]] + spec_remove_sprite(sprites.drop_first(), name)
    }
}

/// Index of the first registry entry named `name`, if any.
pub open spec fn spec_sprite_index(sprites: Seq<SpriteDirective>, name: Seq<char>) -> Option<int>
    decreases sprites.len(),
{
    if sprites.len() == 0 {
        None
    } else if sprites[0].name@ == name {
        Some(0)
    } else {
        match spec_sprite_index(sprites.drop_first(), name) {
            None => None,
            Some(i) => Some(i + 1),
        }
    }
}

/// Where a newly shown sprite of priority `p` goes: just before the
/// first existing entry whose priority is no greater than `p`, at
/// the end when every entry's priority is greater.
pub open spec fn spec_insert_pos(sprites: Seq<SpriteDirective>, attrs: Attributes, p: int) -> int
    decreases sprites.len(),
{
    if sprites.len() == 0 {
        0
    } else if spec_priority(attrs, sprites[0].name@) <= p {
        0
    } else {
        1 + spec_insert_pos(sprites.drop_first(), attrs, p)
    }
}

/// The registry after a sprite is shown: an entry with the same
/// name is replaced in place; otherwise the sprite is inserted at
/// its priority position.
pub open spec fn spec_upsert_sprite(
    sprites: Seq<SpriteDirective>,
    s: SpriteDirective,
    attrs: Attributes,
) -> Seq<SpriteDirective> {
    match spec_sprite_index(sprites, s.name@) {
        Some(j) => sprites.update(j, s),
        None => sprites.insert(spec_insert_pos(sprites, attrs, spec_priority(attrs, s.name@)), s),
    }
}

/// `s` inserted into `acc` before the first entry whose priority is
/// strictly below its own: a stable descending insertion.
pub open spec fn spec_insert_sorted(
    acc: Seq<SpriteDirective>,
    s: SpriteDirective,
    attrs: Attributes,
) -> Seq<SpriteDirective>
    decreases acc.len(),
{
    if acc.len() == 0 {
        seq![s]
    } else if spec_priority(attrs, acc[0].name@) < spec_priority(attrs, s.name@) {
        seq![s] + acc
    } else {
        seq![acc[0]] + spec_insert_sorted(acc.drop_first(), s, attrs)
    }
}

/// The registry re-sorted by priority, descending and stable: each
/// entry in turn is inserted behind the entries whose priority is at
/// least its own.
pub open spec fn spec_sort_sprites(sprites: Seq<SpriteDirective>, attrs: Attributes) -> Seq<
    SpriteDirective,
>
    decreases sprites.len(),
{
    if sprites.len() == 0 {
        sprites
    } else {
        spec_insert_sorted(spec_sort_sprites(sprites.drop_last(), attrs), sprites.last(), attrs)
    }
}

/// Whether an `@attr` write lands on `sprite.<name>.priority` and
/// so triggers a registry re-sort.
pub open spec fn spec_is_priority_write(path: Seq<char>, key: Seq<char>) -> bool {
    &&& spec_split(path, '.').len() == 2
    &&& spec_split(path, '.')[0] == "sprite"@
    &&& key == "priority"@
}

/// Whether some registry entry is named `n`.
pub open spec fn spec_has_sprite(sprites: Seq<SpriteDirective>, n: Seq<char>) -> bool {
    exists|j: int| 0 <= j < sprites.len() && sprites[j].name@ == n
}

/// Removal takes out exactly the named entry: the name is gone and
/// every other name reads as before; distinctness is kept.
pub proof fn lemma_remove_sprite_props(sprites: Seq<SpriteDirective>, name: Seq<char>)
    requires
        forall|i: int, j: int|
            0 <= i < j < sprites.len() ==> sprites[i].name@ != sprites[j].name@,
    ensures
        !spec_has_sprite(spec_remove_sprite(sprites, name), name),
        forall|n: Seq<char>|
            n != name ==> spec_has_sprite(spec_remove_sprite(sprites, name), n)
                == spec_has_sprite(sprites, n),
        forall|i: int, j: int|
            0 <= i < j < spec_remove_sprite(sprites, name).len()
                ==> spec_remove_sprite(sprites, name)[i].name@ != spec_remove_sprite(
                sprites,
                name,
            )[j].name@,
    decreases sprites.len(),
{
    let r = spec_remove_sprite(sprites, name);
    if sprites.len() == 0 {
    } else {
        let t = sprites.drop_first();
        assert forall|i: int| 0 <= i < t.len() implies t[i] == sprites[i + 1] by {}
        if sprites[0].name@ == name {
            assert(r =~= t);
            assert forall|jj: int| 0 <= jj < t.len() implies t[jj].name@ != name by {
                assert(sprites[jj + 1].name@ != sprites[0].name@);
            }
            assert forall|n: Seq<char>|
                n != name implies spec_has_sprite(r, n) == spec_has_sprite(sprites, n) by {
                if spec_has_sprite(sprites, n) {
                    let j = choose|j: int| 0 <= j < sprites.len() && sprites[j].name@ == n;
                    assert(j >= 1);
                    assert(t[j - 1].name@ == n);
                }
            }
        } else {
            lemma_remove_sprite_props(t, name);
            let rt = spec_remove_sprite(t, name);
            assert(r =~= seq![sprites[0]] + rt);
            assert(r[0] == sprites[0]);
            assert forall|i: int| 0 <= i < rt.len() implies r[i + 1] == rt[i] by {}
            assert(!spec_has_sprite(r, name)) by {
                if spec_has_sprite(r, name) {
                    let j = choose|j: int| 0 <= j < r.len() && r[j].name@ == name;
                    assert(j >= 1);
                    assert(rt[j - 1].name@ == name);
                }
            }
            assert forall|n: Seq<char>|
                n != name implies spec_has_sprite(r, n) == spec_has_sprite(sprites, n) by {
                if spec_has_sprite(r, n) {
                    let j = choose|j: int| 0 <= j < r.len() && r[j].name@ == n;
                    if j == 0 {
                        assert(sprites[0].name@ == n);
                    } else {
                        assert(rt[j - 1].name@ == n);
                        assert(spec_has_sprite(t, n));
                        let jj = choose|jj: int| 0 <= jj < t.len() && t[jj].name@ == n;
                        assert(sprites[jj + 1].name@ == n);
                    }
                } else {
                    if spec_has_sprite(sprites, n) {
                        let j = choose|j: int| 0 <= j < sprites.len() && sprites[j].name@ == n;
                        if j == 0 {
                            assert(r[0].name@ == n);
                            assert(spec_has_sprite(r, n));
                        } else {
                            assert(t[j - 1].name@ == n);
                            assert(spec_has_sprite(t, n));
                            assert(spec_has_sprite(rt, n));
                            let jj = choose|jj: int| 0 <= jj < rt.len() && rt[jj].name@ == n;
                            assert(r[jj + 1].name@ == n);
                        }
                    }
                }
            }
            assert forall|i: int, j: int|
                0 <= i < j < r.len() implies r[i].name@ != r[j].name@ by {
                if i == 0 {
                    assert(r[j] == rt[j - 1]);
                    assert(spec_has_sprite(rt, rt[j - 1].name@));
                    if sprites[0].name@ == rt[j - 1].name@ {
                        assert(spec_has_sprite(t, sprites[0].name@));
                        let jj = choose|jj: int|
                            0 <= jj < t.len() && t[jj].name@ == sprites[0].name@;
                        assert(sprites[jj + 1].name@ == sprites[0].name@);
                    }
                } else {
                    assert(r[i] == rt[i - 1]);
                    assert(r[j] == rt[j - 1]);
                }
            }
        }
    }
}

/// A field-by-field copy of a sprite record.
pub(crate) fn duplicate_sprite(s: &SpriteDirective) -> (r: SpriteDirective)
    ensures
        r == *s,
{
    SpriteDirective {
        name: s.name.clone(),
        sprite_path: match &s.sprite_path {
            Some(p) => Some(p.clone()),
            None => None,
        },
        x: s.x,
        y: s.y,
        show: s.show,
    }
}

/// Index of the first registry entry named `name`, with the
/// first-occurrence facts `spec_sprite_index` promises.
fn find_sprite(sprites: &Vec<SpriteDirective>, name: &str) -> (r: Option<usize>)
    ensures
        match r {
            Some(j) => spec_sprite_index(sprites@, name@) == Some(j as int) && 0 <= j
                < sprites@.len() && sprites@[j as int].name@ == name@,
            None => spec_sprite_index(sprites@, name@) is None && !spec_has_sprite(
                sprites@,
                name@,
            ),
        },
{
    proof {
        lemma_sprite_index(sprites@, name@);
    }
    let n = sprites.len();
    let mut i: usize = 0;
    while i < n
        invariant
            n == sprites@.len(),
            0 <= i <= n,
            forall|jj: int| 0 <= jj < i ==> sprites@[jj].name@ != name@,
        decreases n - i,
    {
        if str_eq(sprites[i].name.as_str(), name) {
            proof {
                lemma_sprite_index(sprites@, name@);
            }
            return Some(i);
        }
        i = i + 1;
    }
    proof {
        lemma_sprite_index(sprites@, name@);
    }
    None
}

/// `spec_sprite_index` finds the first entry with the name, or
/// reports that none has it.
pub proof fn lemma_sprite_index(sprites: Seq<SpriteDirective>, name: Seq<char>)
    ensures
        match spec_sprite_index(sprites, name) {
            Some(j) => 0 <= j < sprites.len() && sprites[j].name@ == name && (forall|jj: int|
                0 <= jj < j ==> sprites[jj].name@ != name),
            None => forall|jj: int| 0 <= jj < sprites.len() ==> sprites[jj].name@ != name,
        },
    decreases sprites.len(),
{
    if sprites.len() > 0 && sprites[0].name@ != name {
        let t = sprites.drop_first();
        lemma_sprite_index(t, name);
        match spec_sprite_index(t, name) {
            Some(i) => {
                assert forall|jj: int| 0 < jj < i + 1 implies sprites[jj].name@ != name by {
                    assert(t[jj - 1] == sprites[jj]);
                }
            },
            None => {
                assert forall|jj: int|
                    0 < jj < sprites.len() implies sprites[jj].name@ != name by {
                    assert(t[jj - 1] == sprites[jj]);
                }
            },
        }
    }
}

/// The first position whose entry's priority is at most `p` is
/// where `spec_insert_pos` points.
proof fn lemma_insert_pos(sprites: Seq<SpriteDirective>, attrs: Attributes, p: int, k: int)
    requires
        0 <= k <= sprites.len(),
        forall|i: int| 0 <= i < k ==> spec_priority(attrs, sprites[i].name@) > p,
        k < sprites.len() ==> spec_priority(attrs, sprites[k].name@) <= p,
    ensures
        spec_insert_pos(sprites, attrs, p) == k,
    decreases k,
{
    if k > 0 {
        let t = sprites.drop_first();
        assert forall|i: int| 0 <= i < t.len() implies t[i] == sprites[i + 1] by {}
        lemma_insert_pos(t, attrs, p, k - 1);
    }
}

/// Reads a sprite's priority from the attribute store.
fn sprite_priority(attrs: &Attributes, name: &str) -> (r: i64)
    ensures
        r as int == spec_priority(*attrs, name@),
{
    let path = ("sprite.").to_owned().concat(name).concat(".priority");
    match attrs.get_path(path.as_str()) {
        Some(v) => match v.as_value() {
            Some(text) => match parse_i64(text) {
                Some(p) => p,
                None => 0,
            },
            None => 0,
        },
        None => 0,
    }
}

/// Upserts a shown sprite into the registry, exactly as
/// `spec_upsert_sprite` states.
fn upsert_sprite(sprites: &mut Vec<SpriteDirective>, s: SpriteDirective, attrs: &Attributes)
    ensures
        final(sprites)@ == spec_upsert_sprite(old(sprites)@, s, *attrs),
{
    let ghost prev = sprites@;
    match find_sprite(sprites, s.name.as_str()) {
        Some(j) => {
            sprites.remove(j);
            sprites.insert(j, s);
            proof {
                assert(sprites@ =~= prev.update(j as int, s));
            }
        },
        None => {
            let p = sprite_priority(attrs, s.name.as_str());
            let n = sprites.len();
            let mut i: usize = 0;
            let mut stop = false;
            while i < n && !stop
                invariant
                    n == sprites@.len(),
                    sprites@ == prev,
                    0 <= i <= n,
                    p as int == spec_priority(*attrs, s.name@),
                    forall|jj: int|
                        0 <= jj < i ==> spec_priority(*attrs, sprites@[jj].name@) > p as int,
                    stop ==> i < n && spec_priority(*attrs, sprites@[i as int].name@) <= p as int,
                decreases n - i, (if stop { 0int } else { 1int }),
            {
                let q = sprite_priority(attrs, sprites[i].name.as_str());
                if q <= p {
                    stop = true;
                } else {
                    i = i + 1;
                }
            }
            proof {
                lemma_insert_pos(prev, *attrs, p as int, i as int);
            }
            sprites.insert(i, s);
        },
    }
}

/// Upserting leaves the registry unique by name, and the names
/// present are the old ones plus the upserted sprite's.
pub proof fn lemma_upsert_sprite_props(
    sprites: Seq<SpriteDirective>,
    s: SpriteDirective,
    attrs: Attributes,
)
    requires
        forall|i: int, j: int|
            0 <= i < j < sprites.len() ==> sprites[i].name@ != sprites[j].name@,
    ensures
        forall|n: Seq<char>|
            spec_has_sprite(spec_upsert_sprite(sprites, s, attrs), n) == (spec_has_sprite(
                sprites,
                n,
            ) || n == s.name@),
        forall|i: int, j: int|
            0 <= i < j < spec_upsert_sprite(sprites, s, attrs).len() ==> spec_upsert_sprite(
                sprites,
                s,
                attrs,
            )[i].name@ != spec_upsert_sprite(sprites, s, attrs)[j].name@,
{
    let r = spec_upsert_sprite(sprites, s, attrs);
    lemma_sprite_index(sprites, s.name@);
    match spec_sprite_index(sprites, s.name@) {
        Some(j) => {
            assert(r == sprites.update(j, s));
            assert(sprites[j].name@ == s.name@);
            assert forall|n: Seq<char>|
                spec_has_sprite(r, n) == (spec_has_sprite(sprites, n) || n == s.name@) by {
                if spec_has_sprite(r, n) {
                    let jj = choose|jj: int| 0 <= jj < r.len() && r[jj].name@ == n;
                    if jj != j {
                        assert(sprites[jj].name@ == n);
                    }
                } else {
                }
                if spec_has_sprite(sprites, n) {
                    let jj = choose|jj: int| 0 <= jj < sprites.len() && sprites[jj].name@ == n;
                    if jj != j {
                        assert(r[jj].name@ == n);
                    } else {
                        assert(n == s.name@);
                        assert(r[j].name@ == n);
                    }
                }
                if n == s.name@ {
                    assert(r[j].name@ == n);
                }
            }
        },
        None => {
            let p = spec_insert_pos(sprites, attrs, spec_priority(attrs, s.name@));
            lemma_insert_pos_range(sprites, attrs, spec_priority(attrs, s.name@));
            assert(r == sprites.insert(p, s));
            assert forall|n: Seq<char>|
                spec_has_sprite(r, n) == (spec_has_sprite(sprites, n) || n == s.name@) by {
                if spec_has_sprite(r, n) {
                    let jj = choose|jj: int| 0 <= jj < r.len() && r[jj].name@ == n;
                    if jj < p {
                        assert(sprites[jj].name@ == n);
                    } else if jj > p {
                        assert(sprites[jj - 1].name@ == n);
                    }
                }
                if spec_has_sprite(sprites, n) {
                    let jj = choose|jj: int| 0 <= jj < sprites.len() && sprites[jj].name@ == n;
                    if jj < p {
                        assert(r[jj].name@ == n);
                    } else {
                        assert(r[jj + 1].name@ == n);
                    }
                }
                if n == s.name@ {
                    assert(r[p].name@ == n);
                }
            }
            assert forall|i: int, j: int|
                0 <= i < j < r.len() implies r[i].name@ != r[j].name@ by {
                let oi: int = if i < p {
                    i
                } else {
                    i - 1
                };
                let oj: int = if j < p {
                    j
                } else {
                    j - 1
                };
                if i == p {
                    assert(r[j] == sprites[j - 1]);
                    assert(!spec_has_sprite(sprites, s.name@));
                } else if j == p {
                    assert(r[i] == sprites[i]);
                    assert(!spec_has_sprite(sprites, s.name@));
                } else {
                    assert(r[i] == sprites[oi]);
                    assert(r[j] == sprites[oj]);
                }
            }
        },
    }
}

/// The insert position lies within the registry.
proof fn lemma_insert_pos_range(sprites: Seq<SpriteDirective>, attrs: Attributes, p: int)
    ensures
        0 <= spec_insert_pos(sprites, attrs, p) <= sprites.len(),
    decreases sprites.len(),
{
    if sprites.len() > 0 && spec_priority(attrs, sprites[0].name@) > p {
        lemma_insert_pos_range(sprites.drop_first(), attrs, p);
    }
}

/// The stable insertion lands at the first position whose entry's
/// priority is strictly below the inserted sprite's.
proof fn lemma_insert_sorted_at(
    acc: Seq<SpriteDirective>,
    s: SpriteDirective,
    attrs: Attributes,
    k: int,
)
    requires
        0 <= k <= acc.len(),
        forall|i: int|
            0 <= i < k ==> spec_priority(attrs, acc[i].name@) >= spec_priority(attrs, s.name@),
        k < acc.len() ==> spec_priority(attrs, acc[k].name@) < spec_priority(attrs, s.name@),
    ensures
        spec_insert_sorted(acc, s, attrs) =~= acc.insert(k, s),
    decreases k,
{
    if acc.len() == 0 {
    } else if spec_priority(attrs, acc[0].name@) < spec_priority(attrs, s.name@) {
        assert(k == 0);
    } else {
        assert(k > 0);
        let t = acc.drop_first();
        assert forall|i: int| 0 <= i < t.len() implies t[i] == acc[i + 1] by {}
        lemma_insert_sorted_at(t, s, attrs, k - 1);
    }
}

/// Inserts `s` behind every entry whose priority is at least its
/// own, exactly as `spec_insert_sorted` states.
fn insert_sorted(out: &mut Vec<SpriteDirective>, s: SpriteDirective, attrs: &Attributes)
    ensures
        final(out)@ == spec_insert_sorted(old(out)@, s, *attrs),
{
    let ghost prev = out@;
    let p = sprite_priority(attrs, s.name.as_str());
    let n = out.len();
    let mut i: usize = 0;
    let mut stop = false;
    while i < n && !stop
        invariant
            n == out@.len(),
            out@ == prev,
            0 <= i <= n,
            p as int == spec_priority(*attrs, s.name@),
            forall|jj: int|
                0 <= jj < i ==> spec_priority(*attrs, out@[jj].name@) >= p as int,
            stop ==> i < n && spec_priority(*attrs, out@[i as int].name@) < p as int,
        decreases n - i, (if stop { 0int } else { 1int }),
    {
        let q = sprite_priority(attrs, out[i].name.as_str());
        if q < p {
            stop = true;
        } else {
            i = i + 1;
        }
    }
    proof {
        lemma_insert_sorted_at(prev, s, *attrs, i as int);
    }
    out.insert(i, s);
}

/// Re-sorts the registry, exactly as `spec_sort_sprites` states.
fn sort_sprites(sprites: &mut Vec<SpriteDirective>, attrs: &Attributes)
    ensures
        final(sprites)@ == spec_sort_sprites(old(sprites)@, *attrs),
{
    let ghost orig = sprites@;
    let mut out: Vec<SpriteDirective> = Vec::new();
    let n = sprites.len();
    let mut k: usize = 0;
    proof {
        assert(orig.take(0) =~= Seq::<SpriteDirective>::empty());
    }
    while k < n
        invariant
            n == sprites@.len(),
            sprites@ == orig,
            0 <= k <= n,
            out@ == spec_sort_sprites(orig.take(k as int), *attrs),
        decreases n - k,
    {
        let item = duplicate_sprite(&sprites[k]);
        insert_sorted(&mut out, item, attrs);
        proof {
            assert(orig.take(k + 1).drop_last() =~= orig.take(k as int));
            assert(orig.take(k + 1).last() == orig[k as int]);
        }
        k = k + 1;
    }
    proof {
        assert(orig.take(n as int) =~= orig);
    }
    *sprites = out;
}

/// Stable insertion adds exactly the inserted name, and keeps the
/// registry unique when the name is new.
pub proof fn lemma_insert_sorted_props(
    acc: Seq<SpriteDirective>,
    s: SpriteDirective,
    attrs: Attributes,
)
    ensures
        forall|n: Seq<char>|
            spec_has_sprite(spec_insert_sorted(acc, s, attrs), n) == (spec_has_sprite(acc, n)
                || n == s.name@),
        (!spec_has_sprite(acc, s.name@) && (forall|i: int, j: int|
            0 <= i < j < acc.len() ==> acc[i].name@ != acc[j].name@)) ==> (forall|i: int, j: int|
            0 <= i < j < spec_insert_sorted(acc, s, attrs).len() ==> spec_insert_sorted(
                acc,
                s,
                attrs,
            )[i].name@ != spec_insert_sorted(acc, s, attrs)[j].name@),
{
    lemma_insert_sorted_pos_exists(acc, s, attrs);
    let k = choose|k: int|
        0 <= k <= acc.len() && spec_insert_sorted(acc, s, attrs) =~= acc.insert(k, s) && (forall|
            i: int,
        |
            0 <= i < k ==> spec_priority(attrs, acc[i].name@) >= spec_priority(attrs, s.name@)) && (
        k < acc.len() ==> spec_priority(attrs, acc[k].name@) < spec_priority(attrs, s.name@));
    let r = spec_insert_sorted(acc, s, attrs);
    assert(r =~= acc.insert(k, s));
    assert forall|n: Seq<char>|
        spec_has_sprite(r, n) == (spec_has_sprite(acc, n) || n == s.name@) by {
        if spec_has_sprite(r, n) {
            let jj = choose|jj: int| 0 <= jj < r.len() && r[jj].name@ == n;
            if jj < k {
                assert(acc[jj].name@ == n);
            } else if jj > k {
                assert(acc[jj - 1].name@ == n);
            }
        }
        if spec_has_sprite(acc, n) {
            let jj = choose|jj: int| 0 <= jj < acc.len() && acc[jj].name@ == n;
            if jj < k {
                assert(r[jj].name@ == n);
            } else {
                assert(r[jj + 1].name@ == n);
            }
        }
        if n == s.name@ {
            assert(r[k].name@ == n);
        }
    }
    if !spec_has_sprite(acc, s.name@) && (forall|i: int, j: int|
        0 <= i < j < acc.len() ==> acc[i].name@ != acc[j].name@) {
        assert forall|i: int, j: int| 0 <= i < j < r.len() implies r[i].name@ != r[j].name@ by {
            if i == k {
                assert(r[j] == acc[j - 1]);
            } else if j == k {
                assert(r[i] == acc[i]);
            } else {
                let oi: int = if i < k {
                    i
                } else {
                    i - 1
                };
                let oj: int = if j < k {
                    j
                } else {
                    j - 1
                };
                assert(r[i] == acc[oi]);
                assert(r[j] == acc[oj]);
            }
        }
    }
}

/// Some position satisfies the stable-insertion characterization.
proof fn lemma_insert_sorted_pos_exists(
    acc: Seq<SpriteDirective>,
    s: SpriteDirective,
    attrs: Attributes,
)
    ensures
        exists|k: int|
            0 <= k <= acc.len() && spec_insert_sorted(acc, s, attrs) =~= acc.insert(k, s) && (
            forall|i: int|
                0 <= i < k ==> spec_priority(attrs, acc[i].name@) >= spec_priority(
                    attrs,
                    s.name@,
                )) && (k < acc.len() ==> spec_priority(attrs, acc[k].name@) < spec_priority(
                attrs,
                s.name@,
            )),
    decreases acc.len(),
{
    if acc.len() == 0 {
        lemma_insert_sorted_at(acc, s, attrs, 0);
        assert(0 <= 0 <= acc.len() && spec_insert_sorted(acc, s, attrs) =~= acc.insert(0, s) && (
        forall|i: int|
            0 <= i < 0 ==> spec_priority(attrs, acc[i].name@) >= spec_priority(attrs, s.name@)) && (
        0 < acc.len() ==> spec_priority(attrs, acc[0].name@) < spec_priority(attrs, s.name@)));
    } else if spec_priority(attrs, acc[0].name@) < spec_priority(attrs, s.name@) {
        lemma_insert_sorted_at(acc, s, attrs, 0);
        assert(0 <= 0 <= acc.len() && spec_insert_sorted(acc, s, attrs) =~= acc.insert(0, s) && (
        forall|i: int|
            0 <= i < 0 ==> spec_priority(attrs, acc[i].name@) >= spec_priority(attrs, s.name@)) && (
        0 < acc.len() ==> spec_priority(attrs, acc[0].name@) < spec_priority(attrs, s.name@)));
    } else {
        let t = acc.drop_first();
        lemma_insert_sorted_pos_exists(t, s, attrs);
        let kt = choose|kt: int|
            0 <= kt <= t.len() && spec_insert_sorted(t, s, attrs) =~= t.insert(kt, s) && (forall|
                i: int,
            |
                0 <= i < kt ==> spec_priority(attrs, t[i].name@) >= spec_priority(attrs, s.name@))
                && (kt < t.len() ==> spec_priority(attrs, t[kt].name@) < spec_priority(
                attrs,
                s.name@,
            ));
        assert forall|i: int| 0 <= i < t.len() implies t[i] == acc[i + 1] by {}
        let k = kt + 1;
        assert(spec_insert_sorted(acc, s, attrs) =~= seq![acc[0]] + spec_insert_sorted(
            t,
            s,
            attrs,
        ));
        assert(spec_insert_sorted(acc, s, attrs) =~= acc.insert(k, s));
        assert forall|i: int|
            0 <= i < k implies spec_priority(attrs, acc[i].name@) >= spec_priority(
                attrs,
                s.name@,
            ) by {
            if i > 0 {
                assert(acc[i] == t[i - 1]);
            }
        }
        assert(0 <= k <= acc.len() && spec_insert_sorted(acc, s, attrs) =~= acc.insert(k, s) && (
        forall|i: int|
            0 <= i < k ==> spec_priority(attrs, acc[i].name@) >= spec_priority(attrs, s.name@)) && (
        k < acc.len() ==> spec_priority(attrs, acc[k].name@) < spec_priority(attrs, s.name@)));
    }
}

/// Sorting neither adds nor loses a name, and keeps the registry
/// unique by name.
pub proof fn lemma_sort_sprites_props(sprites: Seq<SpriteDirective>, attrs: Attributes)
    requires
        forall|i: int, j: int|
            0 <= i < j < sprites.len() ==> sprites[i].name@ != sprites[j].name@,
    ensures
        forall|n: Seq<char>|
            spec_has_sprite(spec_sort_sprites(sprites, attrs), n) == spec_has_sprite(sprites, n),
        forall|i: int, j: int|
            0 <= i < j < spec_sort_sprites(sprites, attrs).len() ==> spec_sort_sprites(
                sprites,
                attrs,
            )[i].name@ != spec_sort_sprites(sprites, attrs)[j].name@,
    decreases sprites.len(),
{
    if sprites.len() > 0 {
        let t = sprites.drop_last();
        let s = sprites.last();
        assert forall|i: int| 0 <= i < t.len() implies t[i] == sprites[i] by {}
        lemma_sort_sprites_props(t, attrs);
        let r0 = spec_sort_sprites(t, attrs);
        assert(!spec_has_sprite(t, s.name@)) by {
            if spec_has_sprite(t, s.name@) {
                let j = choose|j: int| 0 <= j < t.len() && t[j].name@ == s.name@;
                assert(sprites[j].name@ == sprites[sprites.len() - 1].name@);
            }
        }
        lemma_insert_sorted_props(r0, s, attrs);
        assert forall|n: Seq<char>|
            spec_has_sprite(spec_sort_sprites(sprites, attrs), n) == spec_has_sprite(
                sprites,
                n,
            ) by {
            if spec_has_sprite(sprites, n) {
                let j = choose|j: int| 0 <= j < sprites.len() && sprites[j].name@ == n;
                if j < sprites.len() - 1 {
                    assert(t[j].name@ == n);
                    assert(spec_has_sprite(t, n));
                }
            }
            if spec_has_sprite(t, n) {
                let j = choose|j: int| 0 <= j < t.len() && t[j].name@ == n;
                assert(sprites[j].name@ == n);
            }
        }
    }
}

/// The scene state — registry, background, confirmed assets,
/// attributes — is untouched.
pub open spec fn same_scene(pre: Engine, post: Engine) -> bool {
    &&& post.sprites == pre.sprites
    &&& post.bg_path == pre.bg_path
    &&& post.loaded_bgs == pre.loaded_bgs
    &&& post.attributes == pre.attributes
}

/// Nothing changed at all.
pub open spec fn same_engine(pre: Engine, post: Engine) -> bool {
    &&& same_scene(pre, post)
    &&& post.script == pre.script
    &&& post.iscript == pre.iscript
}

/// The cursor moved one event forward and nothing else changed.
pub open spec fn spec_advanced(pre: Engine, post: Engine) -> bool {
    &&& same_scene(pre, post)
    &&& post.script == pre.script
    &&& post.iscript == pre.iscript + 1
}

/// Following a jump: with the target resolved, the target script
/// replaces the current one and the cursor resets; unresolved, the
/// step fails with the target's path and changes nothing.
pub open spec fn spec_follow(
    pre: Engine,
    post: Engine,
    r: Result<(), EngineError>,
    j: crate::directives::JumpDirective,
) -> bool {
    match j.endpoint.script {
        Some(s) => {
            &&& r is Ok
            &&& same_scene(pre, post)
            &&& post.script == s
            &&& post.iscript == 0
        },
        None => {
            &&& r == Err::<(), EngineError>(
                EngineError::ScriptNotLoaded(j.endpoint.script_path),
            )
            &&& same_engine(pre, post)
        },
    }
}

/// An `@attr` write applied to the store, exactly as
/// `Attributes::add_attribute` states.
pub open spec fn spec_attr_applied(
    olda: Attributes,
    newa: Attributes,
    a: crate::directives::AttributeDirective,
) -> bool {
    let segs = spec_split(a.path@, '.');
    if segs[0].len() == 0 {
        spec_updated(olda.0@, newa.0@, Seq::<Seq<char>>::empty(), 0, a.key@, a.value)
    } else {
        spec_updated(olda.0@, newa.0@, segs, 0, a.key@, a.value)
    }
}

/// What one `next(choice)` call does, case by case over the event
/// at the cursor.  Every directive's side effect lands before the
/// cursor advances past it, and a failing step leaves the cursor
/// where it was.
pub open spec fn spec_step(
    pre: Engine,
    choice: bool,
    post: Engine,
    r: Result<(), EngineError>,
) -> bool {
    let i = pre.iscript as int;
    if i >= pre.script.ctx@.len() {
        &&& r is Ok
        &&& same_engine(pre, post)
    } else {
        match pre.script.ctx@[i] {
            ScriptContext::Dialogue(d) => r is Ok && spec_advanced(pre, post),
            ScriptContext::Directive(dir) => match dir {
                ScriptDirective::Custom(c) => r is Ok && spec_advanced(pre, post),
                ScriptDirective::Sprite(s) => {
                    &&& r is Ok
                    &&& post.script == pre.script
                    &&& post.iscript == pre.iscript + 1
                    &&& post.sprites@ == if s.show {
                        spec_upsert_sprite(pre.sprites@, s, pre.attributes)
                    } else {
                        spec_remove_sprite(pre.sprites@, s.name@)
                    }
                    &&& post.bg_path == pre.bg_path
                    &&& post.loaded_bgs == pre.loaded_bgs
                    &&& post.attributes == pre.attributes
                },
                ScriptDirective::LoadBG(b) => {
                    &&& post.script == pre.script
                    &&& post.sprites == pre.sprites
                    &&& post.loaded_bgs == pre.loaded_bgs
                    &&& post.attributes == pre.attributes
                    &&& post.bg_path == Some(b.bg_path)
                    &&& if spec_has_str(pre.loaded_bgs@, b.bg_path@) {
                        r is Ok && post.iscript == pre.iscript + 1
                    } else {
                        &&& r == Err::<(), EngineError>(EngineError::AssetNotLoaded(b.bg_path))
                        &&& post.iscript == pre.iscript
                    }
                },
                ScriptDirective::Attr(a) => {
                    &&& r is Ok
                    &&& post.script == pre.script
                    &&& post.iscript == pre.iscript + 1
                    &&& post.bg_path == pre.bg_path
                    &&& post.loaded_bgs == pre.loaded_bgs
                    &&& spec_attr_applied(pre.attributes, post.attributes, a)
                    &&& post.sprites@ == if spec_is_priority_write(a.path@, a.key@) {
                        spec_sort_sprites(pre.sprites@, post.attributes)
                    } else {
                        pre.sprites@
                    }
                },
                ScriptDirective::Jump(j) => match j.choices {
                    Some(c) => if choice {
                        spec_follow(pre, post, r, j)
                    } else {
                        r is Ok && spec_advanced(pre, post)
                    },
                    None => spec_follow(pre, post, r, j),
                },
            },
        }
    }
}

/// What the read phase of a step decided to do.
enum StepPlan {
    Advance,
    Hide(String),
    Upsert(SpriteDirective),
    LoadBg(String),
    SetAttr(AttributeDirective),
    JumpFollow,
    JumpNeeds(String),
}

/// A field-by-field copy of an `@attr` directive.
fn duplicate_attr(a: &AttributeDirective) -> (r: AttributeDirective)
    ensures
        r == *a,
{
    AttributeDirective { path: a.path.clone(), key: a.key.clone(), value: a.value.clone() }
}

/// Whether some confirmed path reads as `s`.
fn has_str(v: &Vec<String>, s: &str) -> (r: bool)
    ensures
        r == spec_has_str(v@, s@),
{
    let n = v.len();
    let mut i: usize = 0;
    while i < n
        invariant
            n == v@.len(),
            0 <= i <= n,
            forall|j: int| 0 <= j < i ==> v@[j]@ != s@,
        decreases n - i,
    {
        if str_eq(v[i].as_str(), s) {
            return true;
        }
        i = i + 1;
    }
    false
}

impl Engine {
    /// A fresh engine over an already parsed script: cursor at the
    /// first event, empty registry, no background, empty store.
    pub fn from_script(script: Script) -> (r: Engine)
        ensures
            r.script == script,
            r.iscript == 0,
            r.sprites@.len() == 0,
            r.loaded_bgs@.len() == 0,
            r.bg_path is None,
            r.attributes.0@.len() == 0,
            engine_wf(r),
    {
        Engine {
            script,
            iscript: 0,
            sprites: Vec::new(),
            loaded_bgs: Vec::new(),
            bg_path: None,
            attributes: Attributes::new(),
        }
    }

    /// Parses `source` as a script named `name` and starts a fresh
    /// engine on it.
    pub fn from_source(source: &str, name: &str) -> (r: Result<Engine, ParseError>)
        ensures
            r is Ok <==> spec_parse(source@, name@) is Ok,
            r is Ok ==> {
                let e = r->Ok_0;
                &&& e.script@ == spec_parse(source@, name@)->Ok_0
                &&& e.iscript == 0
                &&& e.sprites@.len() == 0
                &&& e.loaded_bgs@.len() == 0
                &&& e.bg_path is None
                &&& e.attributes.0@.len() == 0
                &&& engine_wf(e)
            },
            r is Err ==> r->Err_0@ == spec_parse(source@, name@)->Err_0,
    {
        match Script::from_source(source, name) {
            Ok(script) => Ok(Engine::from_script(script)),
            Err(e) => Err(e),
        }
    }

    /// The event at the cursor: nothing once playback has ended.
    pub fn current(&self) -> (r: Option<&ScriptContext>)
        ensures
            match r {
                Some(c) => self.iscript < self.script.ctx@.len() && *c == self.script.ctx@[
                    self.iscript as int],
                None => self.iscript >= self.script.ctx@.len(),
            },
    {
        if self.iscript < self.script.ctx.len() {
            Some(&self.script.ctx[self.iscript])
        } else {
            None
        }
    }

    /// Confirms that the asset at `path` has been decoded by the
    /// caller: recorded once, never twice.
    pub fn supply_asset(&mut self, path: String)
        ensures
            final(self).loaded_bgs@ == if spec_has_str(old(self).loaded_bgs@, path@) {
                old(self).loaded_bgs@
            } else {
                old(self).loaded_bgs@.push(path)
            },
            final(self).script == old(self).script,
            final(self).iscript == old(self).iscript,
            final(self).sprites == old(self).sprites,
            final(self).bg_path == old(self).bg_path,
            final(self).attributes == old(self).attributes,
    {
        if !has_str(&self.loaded_bgs, path.as_str()) {
            self.loaded_bgs.push(path);
        }
    }

    /// Hands the engine the parsed script a jump needs.  When the
    /// cursor stands on a jump whose target is unresolved, the
    /// script is memoized into that jump's reference; in every
    /// other state the call changes nothing and the script is
    /// dropped.
    pub fn supply_script(&mut self, script: Script)
        ensures
            ({
                let i = old(self).iscript as int;
                if i < old(self).script.ctx@.len() && (old(self).script.ctx@[i] matches
                    ScriptContext::Directive(ScriptDirective::Jump(j))
                    && j.endpoint.script is None) {
                    match old(self).script.ctx@[i] {
                        ScriptContext::Directive(ScriptDirective::Jump(j)) => {
                            &&& final(self).script.ctx@ == old(self).script.ctx@.update(
                                i,
                                ScriptContext::Directive(
                                    ScriptDirective::Jump(
                                        crate::directives::JumpDirective {
                                            choices: j.choices,
                                            endpoint: crate::directives::LazilyLoadedScript {
                                                script_path: j.endpoint.script_path,
                                                script: Some(script),
                                            },
                                        },
                                    ),
                                ),
                            )
                            &&& final(self).script.name == old(self).script.name
                            &&& final(self).iscript == old(self).iscript
                            &&& final(self).sprites == old(self).sprites
                            &&& final(self).loaded_bgs == old(self).loaded_bgs
                            &&& final(self).bg_path == old(self).bg_path
                            &&& final(self).attributes == old(self).attributes
                        },
                        _ => false,
                    }
                } else {
                    same_engine(*old(self), *final(self))
                }
            }),
    {
        let i = self.iscript;
        if i >= self.script.ctx.len() {
            return ;
        }
        let applicable = match &self.script.ctx[i] {
            ScriptContext::Directive(ScriptDirective::Jump(j)) => j.endpoint.script.is_none(),
            _ => false,
        };
        if applicable {
            let cref = vstd::std_specs::vec::vec_index_mut(&mut self.script.ctx, i);
            match cref {
                ScriptContext::Directive(ScriptDirective::Jump(j)) => {
                    j.endpoint.script = Some(script);
                },
                _ => {
                    proof {
                        assert(false);
                    }
                },
            }
        }
    }

    /// Performs the event at the cursor and advances past it, as
    /// `spec_step` states: dialogue and custom directives just
    /// advance; sprite directives edit the registry; a background
    /// load records the new background (failing, cursor unmoved,
    /// until the caller confirms the asset); an attribute write
    /// updates the store and re-sorts the registry when it touches
    /// a sprite priority; a jump advances when declined, and
    /// otherwise replaces the whole script (failing, cursor
    /// unmoved, until the caller supplies the target).
    pub fn next(&mut self, choice: bool) -> (r: Result<(), EngineError>)
        requires
            engine_wf(*old(self)),
        ensures
            engine_wf(*final(self)),
            spec_step(*old(self), choice, *final(self), r),
    {
        let i = self.iscript;
        if i >= self.script.ctx.len() {
            return Ok(());
        }
        let plan: StepPlan = match &self.script.ctx[i] {
            ScriptContext::Dialogue(d) => StepPlan::Advance,
            ScriptContext::Directive(dir) => match dir {
                ScriptDirective::Custom(c) => StepPlan::Advance,
                ScriptDirective::Sprite(s) => if s.show {
                    StepPlan::Upsert(duplicate_sprite(s))
                } else {
                    StepPlan::Hide(s.name.clone())
                },
                ScriptDirective::LoadBG(b) => StepPlan::LoadBg(b.bg_path.clone()),
                ScriptDirective::Attr(a) => StepPlan::SetAttr(duplicate_attr(a)),
                ScriptDirective::Jump(j) => {
                    let follow = match &j.choices {
                        Some(c) => choice,
                        None => true,
                    };
                    if !follow {
                        StepPlan::Advance
                    } else {
                        match &j.endpoint.script {
                            Some(s) => StepPlan::JumpFollow,
                            None => StepPlan::JumpNeeds(j.endpoint.script_path.clone()),
                        }
                    }
                },
            },
        };
        match plan {
            StepPlan::Advance => {
                self.iscript = i + 1;
                Ok(())
            },
            StepPlan::Hide(name) => {
                proof {
                    lemma_sprite_index(self.sprites@, name@);
                    lemma_remove_sprite_props(self.sprites@, name@);
                }
                match find_sprite(&self.sprites, name.as_str()) {
                    Some(j) => {
                        let ghost prev = self.sprites@;
                        self.sprites.remove(j);
                        proof {
                            lemma_remove_at(prev, name@, j as int);
                        }
                    },
                    None => {
                        proof {
                            lemma_remove_none(self.sprites@, name@);
                        }
                    },
                }
                self.iscript = i + 1;
                Ok(())
            },
            StepPlan::Upsert(s) => {
                proof {
                    lemma_upsert_sprite_props(self.sprites@, s, self.attributes);
                }
                let attrs_ref = &self.attributes;
                upsert_sprite(&mut self.sprites, s, attrs_ref);
                self.iscript = i + 1;
                Ok(())
            },
            StepPlan::LoadBg(path) => {
                let loaded = has_str(&self.loaded_bgs, path.as_str());
                if loaded {
                    self.bg_path = Some(path);
                    self.iscript = i + 1;
                    Ok(())
                } else {
                    self.bg_path = Some(path.clone());
                    Err(EngineError::AssetNotLoaded(path))
                }
            },
            StepPlan::SetAttr(a) => {
                self.attributes.add_attribute(&a);
                let parts = split_char(a.path.as_str(), '.');
                proof {
                    if parts@.len() >= 1 {
                        assert(parts.deep_view()[0] == parts@[0]@);
                    }
                    if parts@.len() >= 2 {
                        assert(parts.deep_view()[1] == parts@[1]@);
                    }
                }
                let trigger = parts.len() == 2 && str_eq(parts[0].as_str(), "sprite") && str_eq(
                    a.key.as_str(),
                    "priority",
                );
                if trigger {
                    proof {
                        lemma_sort_sprites_props(self.sprites@, self.attributes);
                    }
                    let attrs_ref = &self.attributes;
                    sort_sprites(&mut self.sprites, attrs_ref);
                }
                self.iscript = i + 1;
                Ok(())
            },
            StepPlan::JumpFollow => {
                let cref = vstd::std_specs::vec::vec_index_mut(&mut self.script.ctx, i);
                match cref {
                    ScriptContext::Directive(ScriptDirective::Jump(j)) => {
                        let mut taken: Option<Script> = None;
                        core::mem::swap(&mut j.endpoint.script, &mut taken);
                        match taken {
                            Some(s) => {
                                self.script = s;
                                self.iscript = 0;
                                Ok(())
                            },
                            None => {
                                proof {
                                    assert(false);
                                }
                                Err(EngineError::ScriptNotLoaded(String::new()))
                            },
                        }
                    },
                    _ => {
                        proof {
                            assert(false);
                        }
                        Err(EngineError::ScriptNotLoaded(String::new()))
                    },
                }
            },
            StepPlan::JumpNeeds(path) => Err(EngineError::ScriptNotLoaded(path)),
        }
    }
}

/// The size of a script together with every script cached inside
/// its jump references.  Following a jump moves the cached script
/// out of its reference, so this measure shrinks with every
/// successful step: playback between two resource supplies always
/// terminates.
pub open spec fn script_size(s: Script) -> nat
    decreases s,
{
    1 + events_size(s.ctx@)
}

/// The summed sizes of a sequence of events.
pub open spec fn events_size(cs: Seq<ScriptContext>) -> nat
    decreases cs,
{
    if cs.len() == 0 {
        0
    } else {
        event_size(cs[0]) + events_size(cs.drop_first())
    }
}

/// The size of one event: 1, plus the size of the script a jump has
/// cached.
pub open spec fn event_size(c: ScriptContext) -> nat
    decreases c,
{
    match c {
        ScriptContext::Dialogue(d) => 1,
        ScriptContext::Directive(dir) => match dir {
            ScriptDirective::Jump(j) => match j.endpoint.script {
                Some(s) => 1 + script_size(s),
                None => 1,
            },
            _ => 1,
        },
    }
}

/// How much playback work can remain: the script tree's size minus
/// the cursor.  Positive whenever the engine is well formed.
pub open spec fn engine_measure(e: Engine) -> int {
    script_size(e.script) - e.iscript
}

/// Every event accounts for at least 1.
proof fn lemma_event_size_pos(c: ScriptContext)
    ensures
        event_size(c) >= 1,
{
    match c {
        ScriptContext::Dialogue(d) => {},
        ScriptContext::Directive(dir) => match dir {
            ScriptDirective::Jump(j) => match j.endpoint.script {
                Some(s) => {},
                None => {},
            },
            _ => {},
        },
    }
}

/// The events up to an index account for at least that much size.
proof fn lemma_events_size_at(cs: Seq<ScriptContext>, i: int)
    requires
        0 <= i < cs.len(),
    ensures
        events_size(cs) >= i + event_size(cs[i]),
        event_size(cs[i]) >= 1,
    decreases i,
{
    lemma_event_size_pos(cs[i]);
    if i == 0 {
    } else {
        let t = cs.drop_first();
        assert forall|j: int| 0 <= j < t.len() implies t[j] == cs[j + 1] by {}
        lemma_events_size_at(t, i - 1);
        lemma_event_size_pos(cs[0]);
    }
}

/// Every event list accounts for at least its length.
proof fn lemma_events_size_ge_len(cs: Seq<ScriptContext>)
    ensures
        events_size(cs) >= cs.len(),
    decreases cs.len(),
{
    if cs.len() > 0 {
        lemma_event_size_pos(cs[0]);
        lemma_events_size_ge_len(cs.drop_first());
    }
}

/// Every successful step from a live cursor shrinks the remaining
/// work: the cursor advances within the same script, or playback
/// descends into a cached script that is strictly smaller than what
/// held it.
pub proof fn lemma_step_measure(pre: Engine, choice: bool, post: Engine)
    requires
        pre.iscript < pre.script.ctx@.len(),
        spec_step(pre, choice, post, Ok(())),
    ensures
        0 <= engine_measure(post) < engine_measure(pre),
{
    let i = pre.iscript as int;
    lemma_events_size_at(pre.script.ctx@, i);
    lemma_events_size_ge_len(pre.script.ctx@);
    match pre.script.ctx@[i] {
        ScriptContext::Directive(dir) => match dir {
            ScriptDirective::Jump(j) => match j.endpoint.script {
                Some(s) => {
                    if post.script == s {
                        lemma_events_size_ge_len(s.ctx@);
                    }
                },
                None => {},
            },
            _ => {},
        },
        _ => {},
    }
}

/// Whether an event corresponds to a visible frame: a dialogue
/// block, or a jump that offers choices.  Everything else is
/// invisible scene bookkeeping.
pub open spec fn spec_renderable(c: ScriptContext) -> bool {
    match c {
        ScriptContext::Dialogue(d) => true,
        ScriptContext::Directive(dir) => match dir {
            ScriptDirective::Jump(j) => j.choices is Some,
            _ => false,
        },
    }
}

/// Whether an event corresponds to a visible frame.
pub fn is_renderable(c: &ScriptContext) -> (r: bool)
    ensures
        r == spec_renderable(*c),
{
    match c {
        ScriptContext::Dialogue(d) => true,
        ScriptContext::Directive(dir) => match dir {
            ScriptDirective::Jump(j) => j.choices.is_some(),
            _ => false,
        },
    }
}

/// `post` is reached from `pre` by `n` successful `next(false)`
/// calls.
pub open spec fn spec_skips_any(pre: Engine, post: Engine, n: nat) -> bool
    decreases n,
{
    if n == 0 {
        post == pre
    } else {
        exists|mid: Engine|
            #[trigger] spec_step(pre, false, mid, Ok(())) && pre.iscript
                < pre.script.ctx@.len() && spec_skips_any(mid, post, (n - 1) as nat)
    }
}

/// `post` is reached from `pre` by `n` successful `next(false)`
/// calls, each started on an event that is not a visible frame.
pub open spec fn spec_skips_hidden(pre: Engine, post: Engine, n: nat) -> bool
    decreases n,
{
    if n == 0 {
        post == pre
    } else {
        exists|mid: Engine|
            #[trigger] spec_step(pre, false, mid, Ok(())) && pre.iscript
                < pre.script.ctx@.len() && !spec_renderable(
                pre.script.ctx@[pre.iscript as int],
            ) && spec_skips_hidden(mid, post, (n - 1) as nat)
    }
}

/// One more successful step extends a skip chain by one.
proof fn lemma_skips_any_extend(a: Engine, b: Engine, n: nat, c: Engine)
    requires
        spec_skips_any(a, b, n),
        b.iscript < b.script.ctx@.len(),
        spec_step(b, false, c, Ok(())),
    ensures
        spec_skips_any(a, c, (n + 1) as nat),
    decreases n,
{
    if n == 0 {
        assert(spec_skips_any(c, c, ((n + 1) as nat - 1) as nat));
        assert(spec_skips_any(a, c, (n + 1) as nat));
    } else {
        let mid = choose|mid: Engine|
            #[trigger] spec_step(a, false, mid, Ok(())) && a.iscript < a.script.ctx@.len()
                && spec_skips_any(mid, b, (n - 1) as nat);
        lemma_skips_any_extend(mid, b, (n - 1) as nat, c);
        assert(spec_skips_any(mid, c, ((n + 1) as nat - 1) as nat));
        assert(spec_skips_any(a, c, (n + 1) as nat));
    }
}

/// One more successful skip over an invisible event extends a
/// hidden-skip chain by one.
proof fn lemma_skips_hidden_extend(a: Engine, b: Engine, n: nat, c: Engine)
    requires
        spec_skips_hidden(a, b, n),
        b.iscript < b.script.ctx@.len(),
        !spec_renderable(b.script.ctx@[b.iscript as int]),
        spec_step(b, false, c, Ok(())),
    ensures
        spec_skips_hidden(a, c, (n + 1) as nat),
    decreases n,
{
    if n == 0 {
        assert(spec_skips_hidden(c, c, ((n + 1) as nat - 1) as nat));
        assert(spec_skips_hidden(a, c, (n + 1) as nat));
    } else {
        let mid = choose|mid: Engine|
            #[trigger] spec_step(a, false, mid, Ok(())) && a.iscript < a.script.ctx@.len()
                && !spec_renderable(a.script.ctx@[a.iscript as int]) && spec_skips_hidden(
                mid,
                b,
                (n - 1) as nat,
            );
        lemma_skips_hidden_extend(mid, b, (n - 1) as nat, c);
        assert(spec_skips_hidden(mid, c, ((n + 1) as nat - 1) as nat));
        assert(spec_skips_hidden(a, c, (n + 1) as nat));
    }
}


impl Engine {
    /// Skips forward with `next(false)` while the current event
    /// fails the predicate, stopping at the first event the
    /// predicate accepts, at the end of playback, or at the first
    /// failing step.  Every skipped directive's side effects are
    /// applied along the way.
    pub fn next_until<F: Fn(&ScriptContext) -> bool>(&mut self, predicate: F) -> (r: Result<
        (),
        EngineError,
    >)
        requires
            engine_wf(*old(self)),
            forall|c: &ScriptContext| #[trigger] predicate.requires((c,)),
        ensures
            engine_wf(*final(self)),
            r is Ok ==> exists|n: nat| #[trigger] spec_skips_any(*old(self), *final(self), n),
            r is Ok ==> final(self).iscript >= final(self).script.ctx@.len() || predicate.ensures(
                (&final(self).script.ctx@[final(self).iscript as int],),
                true,
            ),
            r is Err ==> exists|n: nat, mid: Engine|
                {
                    &&& #[trigger] spec_skips_any(*old(self), mid, n)
                    &&& spec_step(mid, false, *final(self), Err(r->Err_0))
                },
    {
        let ghost start = *old(self);
        let ghost mut steps: nat = 0nat;
        proof {
            assert(spec_skips_any(start, *self, steps));
        }
        loop
            invariant
                engine_wf(*self),
                forall|c: &ScriptContext| #[trigger] predicate.requires((c,)),
                start == *old(self),
                spec_skips_any(start, *self, steps),
            decreases engine_measure(*self),
        {
            let stop = match self.current() {
                None => true,
                Some(c) => predicate(c),
            };
            if stop {
                return Ok(());
            }
            let ghost mid0 = *self;
            let res = self.next(false);
            match res {
                Ok(u) => {
                    proof {
                        lemma_step_measure(mid0, false, *self);
                        lemma_skips_any_extend(start, mid0, steps, *self);
                        steps = steps + 1;
                    }
                },
                Err(e) => {
                    return Err(e);
                },
            }
        }
    }

    /// Skips forward with `next(false)` through invisible
    /// bookkeeping — sprite and background and attribute directives,
    /// declined jumps — applying their side effects, and stops at
    /// the first event that corresponds to a visible frame: a
    /// dialogue block or a jump with choices.  Stops likewise at the
    /// end of playback, or at the first failing step, the failing
    /// directive's effects not applied and its cursor kept.
    pub fn next_until_renderable(&mut self) -> (r: Result<(), EngineError>)
        requires
            engine_wf(*old(self)),
        ensures
            engine_wf(*final(self)),
            r is Ok ==> exists|n: nat| #[trigger] spec_skips_hidden(*old(self), *final(self), n),
            r is Ok ==> final(self).iscript >= final(self).script.ctx@.len() || spec_renderable(
                final(self).script.ctx@[final(self).iscript as int],
            ),
            r is Err ==> exists|n: nat, mid: Engine|
                {
                    &&& #[trigger] spec_skips_hidden(*old(self), mid, n)
                    &&& spec_step(mid, false, *final(self), Err(r->Err_0))
                },
    {
        let ghost start = *old(self);
        let ghost mut steps: nat = 0nat;
        proof {
            assert(spec_skips_hidden(start, *self, steps));
        }
        loop
            invariant
                engine_wf(*self),
                start == *old(self),
                spec_skips_hidden(start, *self, steps),
            decreases engine_measure(*self),
        {
            let stop = match self.current() {
                None => true,
                Some(c) => is_renderable(c),
            };
            if stop {
                return Ok(());
            }
            let ghost mid0 = *self;
            let res = self.next(false);
            match res {
                Ok(u) => {
                    proof {
                        lemma_step_measure(mid0, false, *self);
                        lemma_skips_hidden_extend(start, mid0, steps, *self);
                        steps = steps + 1;
                    }
                },
                Err(e) => {
                    return Err(e);
                },
            }
        }
    }
}

/// First-match removal equals removing at the first matching index.
proof fn lemma_remove_at(sprites: Seq<SpriteDirective>, name: Seq<char>, j: int)
    requires
        0 <= j < sprites.len(),
        sprites[j].name@ == name,
        forall|jj: int| 0 <= jj < j ==> sprites[jj].name@ != name,
    ensures
        spec_remove_sprite(sprites, name) =~= sprites.remove(j),
    decreases j,
{
    if j == 0 {
    } else {
        let t = sprites.drop_first();
        assert forall|i: int| 0 <= i < t.len() implies t[i] == sprites[i + 1] by {}
        lemma_remove_at(t, name, j - 1);
        assert(spec_remove_sprite(sprites, name) =~= seq![sprites[0]] + spec_remove_sprite(
            t,
            name,
        ));
        assert(sprites.remove(j) =~= seq![sprites[0]] + t.remove(j - 1));
    }
}

/// Removal of a name nobody has changes nothing.
proof fn lemma_remove_none(sprites: Seq<SpriteDirective>, name: Seq<char>)
    requires
        forall|jj: int| 0 <= jj < sprites.len() ==> sprites[jj].name@ != name,
    ensures
        spec_remove_sprite(sprites, name) =~= sprites,
    decreases sprites.len(),
{
    if sprites.len() > 0 {
        let t = sprites.drop_first();
        assert forall|i: int| 0 <= i < t.len() implies t[i] == sprites[i + 1] by {}
        lemma_remove_none(t, name);
    }
}

} // verus!
