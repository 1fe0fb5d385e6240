//! The render cache: a deterministic content hash over everything
//! that affects a rendered dialogue frame's pixels, the renderable
//! context the hash is computed from, and the on-disk artifact
//! index keyed by that hash.
//!
//! The engine computes the hash and decides between a cached
//! artifact and a fresh render; reading, writing and drawing the
//! artifacts is the caller's.

use vstd::prelude::*;
use vstd::string::*;

use crate::attributes::AttributeValue;
use crate::attributes::Attributes;
use crate::attributes::spec_get_path;
use crate::directives::SpriteDirective;
use crate::engine::Engine;
use crate::engine::duplicate_sprite;
use crate::numbers::parse_hex_u32;
use crate::numbers::spec_parse_hex_u32;
use crate::script::ScriptContext;

verus! {

/// A resolved color, one byte a channel.
#[derive(Clone, Copy, Debug, PartialEq, Eq, Structural)]
pub struct Color {
    pub r: u8,
    pub g: u8,
    pub b: u8,
    pub a: u8,
}

/// The four channels of a packed `0xRRGGBBAA` value.
pub open spec fn spec_color_of(c: u32) -> Color {
    Color {
        r: (c / 0x1000000) as u8,
        g: ((c / 0x10000) % 0x100) as u8,
        b: ((c / 0x100) % 0x100) as u8,
        a: (c % 0x100) as u8,
    }
}

/// Unpacks a `0xRRGGBBAA` value.
pub fn color_of(c: u32) -> (r: Color)
    ensures
        r == spec_color_of(c),
{
    Color {
        r: (c / 0x1000000) as u8,
        g: ((c / 0x10000) % 0x100) as u8,
        b: ((c / 0x100) % 0x100) as u8,
        a: (c % 0x100) as u8,
    }
}

/// A character's text color: the leaf at
/// `character.<name>.text_color` read as hexadecimal, or opaque
/// white when the leaf is missing, is a subtree, or does not parse.
pub open spec fn spec_text_color(attrs: Attributes, name: Seq<char>) -> Color {
    match spec_get_path(attrs, "character."@ + name + ".text_color"@) {
        Some(AttributeValue::Value(v)) => match spec_parse_hex_u32(v@) {
            Some(c) => spec_color_of(c),
            None => Color { r: 255, g: 255, b: 255, a: 255 },
        },
        _ => Color { r: 255, g: 255, b: 255, a: 255 },
    }
}

/// A character's dialogue-box color: the leaf at
/// `character.<name>.dialogue_color` read as hexadecimal, or
/// half-opaque black when the leaf is missing, is a subtree, or
/// does not parse.
pub open spec fn spec_dialogue_color(attrs: Attributes, name: Seq<char>) -> Color {
    match spec_get_path(attrs, "character."@ + name + ".dialogue_color"@) {
        Some(AttributeValue::Value(v)) => match spec_parse_hex_u32(v@) {
            Some(c) => spec_color_of(c),
            None => Color { r: 0, g: 0, b: 0, a: 127 },
        },
        _ => Color { r: 0, g: 0, b: 0, a: 127 },
    }
}

fn resolve_color(attrs: &Attributes, name: &str, key: &str, fallback: Color) -> (r: Color)
    ensures
        ({
            let path = "character."@ + name@ + "."@ + key@;
            r == match spec_get_path(*attrs, path) {
                Some(AttributeValue::Value(v)) => match spec_parse_hex_u32(v@) {
                    Some(c) => spec_color_of(c),
                    None => fallback,
                },
                _ => fallback,
            }
        }),
{
    let path = ("character.").to_owned().concat(name).concat(".").concat(key);
    match attrs.get_path(path.as_str()) {
        Some(v) => match v.as_value() {
            Some(text) => match parse_hex_u32(text) {
                Some(c) => color_of(c),
                None => fallback,
            },
            None => fallback,
        },
        None => fallback,
    }
}

/// Resolves a character's text color from the attribute store.
pub fn text_color(attrs: &Attributes, name: &str) -> (r: Color)
    ensures
        r == spec_text_color(*attrs, name@),
{
    let r = resolve_color(attrs, name, "text_color", Color { r: 255, g: 255, b: 255, a: 255 });
    proof {
        reveal_strlit(".");
        reveal_strlit("text_color");
        reveal_strlit(".text_color");
        assert("character."@ + name@ + "."@ + "text_color"@ =~= "character."@ + name@
            + ".text_color"@);
    }
    r
}

/// Resolves a character's dialogue-box color from the attribute
/// store.
pub fn dialogue_color(attrs: &Attributes, name: &str) -> (r: Color)
    ensures
        r == spec_dialogue_color(*attrs, name@),
{
    let r = resolve_color(attrs, name, "dialogue_color", Color { r: 0, g: 0, b: 0, a: 127 });
    proof {
        reveal_strlit(".");
        reveal_strlit("dialogue_color");
        reveal_strlit(".dialogue_color");
        assert("character."@ + name@ + "."@ + "dialogue_color"@ =~= "character."@ + name@
            + ".dialogue_color"@);
    }
    r
}

/// The sprite-scale leaf at `sprite.<name>.scale`, if one is
/// stored; scale text takes part in the render hash as written.
pub open spec fn spec_scale_attr(attrs: Attributes, name: Seq<char>) -> Option<String> {
    match spec_get_path(attrs, "sprite."@ + name + ".scale"@) {
        Some(AttributeValue::Value(v)) => Some(v),
        _ => None,
    }
}

/// Reads a sprite's scale leaf from the attribute store.
pub fn scale_attr(attrs: &Attributes, name: &str) -> (r: Option<String>)
    ensures
        r == spec_scale_attr(*attrs, name@),
{
    let path = ("sprite.").to_owned().concat(name).concat(".scale");
    match attrs.get_path(path.as_str()) {
        Some(v) => match v {
            AttributeValue::Value(text) => Some(text.clone()),
            AttributeValue::Attribute(sub) => None,
        },
        None => None,
    }
}

/// The registry's visible entries, in registry order.
pub open spec fn spec_visible(sprites: Seq<SpriteDirective>) -> Seq<SpriteDirective>
    decreases sprites.len(),
{
    if sprites.len() == 0 {
        sprites
    } else if sprites.last().show {
        spec_visible(sprites.drop_last()).push(sprites.last())
    } else {
        spec_visible(sprites.drop_last())
    }
}

/// The dialogue lines joined, each preceded by one space.
pub open spec fn spec_join_spaced(lines: Seq<Seq<char>>) -> Seq<char>
    decreases lines.len(),
{
    if lines.len() == 0 {
        Seq::<char>::empty()
    } else {
        spec_join_spaced(lines.drop_last()) + " "@ + lines.last()
    }
}

/// Everything that affects a rendered dialogue frame's pixels.
pub struct RenderContext {
    /// The current background path.
    pub background: Option<String>,
    /// The visible sprites, in registry order.
    pub sprites: Vec<SpriteDirective>,
    /// Each visible sprite's scale leaf, in the same order.
    pub scales: Vec<Option<String>>,
    /// The speaking character.
    pub character_name: String,
    /// The dialogue text, lines joined by spaces.
    pub dialogue: String,
    /// The resolved text color.
    pub text_color: Color,
    /// The resolved dialogue-box color.
    pub dialogue_color: Color,
}

/// One mixing round: fold a word into the running state, as the
/// 64-bit Fowler–Noll–Vo variant does.
pub open spec fn spec_mix(h: u64, x: u64) -> u64 {
    vstd::wrapping::u64_specs::wrapping_mul(h ^ x, 0x100000001b3u64)
}

/// The hash seed.
pub open spec fn spec_seed() -> u64 {
    0xcbf29ce484222325u64
}

fn mix(h: u64, x: u64) -> (r: u64)
    ensures
        r == spec_mix(h, x),
{
    (h ^ x).wrapping_mul(0x100000001b3u64)
}

/// A character sequence folded into the state.
pub open spec fn spec_hash_chars(h: u64, s: Seq<char>) -> u64
    decreases s.len(),
{
    if s.len() == 0 {
        h
    } else {
        spec_mix(spec_hash_chars(h, s.drop_last()), s.last() as u64)
    }
}

/// A string folded into the state: its length, then its characters.
pub open spec fn spec_hash_str(h: u64, s: Seq<char>) -> u64 {
    spec_hash_chars(spec_mix(h, s.len() as u64), s)
}

/// An optional string folded into the state, present and absent
/// hashing differently.
pub open spec fn spec_hash_opt_str(h: u64, o: Option<Seq<char>>) -> u64 {
    match o {
        None => spec_mix(h, 0),
        Some(s) => spec_hash_str(spec_mix(h, 1), s),
    }
}

/// An optional number folded into the state.
pub open spec fn spec_hash_opt_u32(h: u64, o: Option<u32>) -> u64 {
    match o {
        None => spec_mix(h, 0),
        Some(v) => spec_mix(spec_mix(h, 1), v as u64),
    }
}

/// A color folded into the state, channel by channel.
pub open spec fn spec_hash_color(h: u64, c: Color) -> u64 {
    spec_mix(spec_mix(spec_mix(spec_mix(h, c.r as u64), c.g as u64), c.b as u64), c.a as u64)
}

/// One sprite folded into the state: name, path, position, scale.
pub open spec fn spec_hash_sprite(h: u64, s: SpriteDirective, scale: Option<String>) -> u64 {
    spec_hash_opt_str(
        spec_hash_opt_u32(
            spec_hash_opt_u32(
                spec_hash_opt_str(
                    spec_hash_str(h, s.name@),
                    match s.sprite_path {
                        Some(p) => Some(p@),
                        None => None,
                    },
                ),
                s.x,
            ),
            s.y,
        ),
        match scale {
            Some(t) => Some(t@),
            None => None,
        },
    )
}

/// The scale at a position, nothing past the end.
pub open spec fn spec_scale_at(scales: Seq<Option<String>>, i: int) -> Option<String> {
    if 0 <= i < scales.len() {
        scales[i]
    } else {
        None
    }
}

/// The first `i` sprites folded into the state, in order.  Sprite
/// order matters to the hash; the numeric priority values
/// themselves do not.
pub open spec fn spec_hash_sprites_upto(
    h: u64,
    sprites: Seq<SpriteDirective>,
    scales: Seq<Option<String>>,
    i: int,
) -> u64
    decreases i,
{
    if i <= 0 {
        h
    } else {
        spec_hash_sprite(
            spec_hash_sprites_upto(h, sprites, scales, i - 1),
            sprites[i - 1],
            spec_scale_at(scales, i - 1),
        )
    }
}

/// The whole sprite list folded into the state.
pub open spec fn spec_hash_sprites(
    h: u64,
    sprites: Seq<SpriteDirective>,
    scales: Seq<Option<String>>,
) -> u64 {
    spec_hash_sprites_upto(h, sprites, scales, sprites.len() as int)
}

/// The hash of everything that affects a rendered dialogue frame:
/// background path, resolved colors, each visible sprite with its
/// scale, the character name, and the dialogue text.  A function of
/// its inputs alone: identical contexts hash identically.
pub open spec fn spec_context_hash(c: RenderContext) -> u64 {
    spec_hash_str(
        spec_hash_str(
            spec_hash_sprites(
                spec_hash_color(
                    spec_hash_color(
                        spec_hash_opt_str(
                            spec_seed(),
                            match c.background {
                                Some(p) => Some(p@),
                                None => None,
                            },
                        ),
                        c.text_color,
                    ),
                    c.dialogue_color,
                ),
                c.sprites@,
                c.scales@,
            ),
            c.character_name@,
        ),
        c.dialogue@,
    )
}

proof fn lemma_hash_chars_extend(h: u64, s: Seq<char>, i: int)
    requires
        0 <= i < s.len(),
    ensures
        spec_hash_chars(h, s.take(i + 1)) == spec_mix(spec_hash_chars(h, s.take(i)), s[i] as u64),
{
    assert(s.take(i + 1).drop_last() =~= s.take(i));
    assert(s.take(i + 1).last() == s[i]);
}

/// Folds a string into the state.
fn hash_str(h: u64, s: &str) -> (r: u64)
    ensures
        r == spec_hash_str(h, s@),
{
    let n: usize = s.unicode_len();
    let mut acc = mix(h, n as u64);
    let mut i: usize = 0;
    proof {
        assert(s@.take(0) =~= Seq::<char>::empty());
    }
    while i < n
        invariant
            n == s@.len(),
            0 <= i <= n,
            acc == spec_hash_chars(spec_mix(h, s@.len() as u64), s@.take(i as int)),
        decreases n - i,
    {
        let c = s.get_char(i);
        proof {
            lemma_hash_chars_extend(spec_mix(h, s@.len() as u64), s@, i as int);
        }
        acc = mix(acc, c as u64);
        i = i + 1;
    }
    proof {
        assert(s@.take(n as int) =~= s@);
    }
    acc
}

/// Folds an optional string into the state.
fn hash_opt_str(h: u64, o: &Option<String>) -> (r: u64)
    ensures
        r == spec_hash_opt_str(
            h,
            match o {
                Some(s) => Some(s@),
                None => None,
            },
        ),
{
    match o {
        None => mix(h, 0),
        Some(s) => hash_str(mix(h, 1), s.as_str()),
    }
}

/// Folds an optional number into the state.
fn hash_opt_u32(h: u64, o: Option<u32>) -> (r: u64)
    ensures
        r == spec_hash_opt_u32(h, o),
{
    match o {
        None => mix(h, 0),
        Some(v) => mix(mix(h, 1), v as u64),
    }
}

/// Folds a color into the state.
fn hash_color(h: u64, c: Color) -> (r: u64)
    ensures
        r == spec_hash_color(h, c),
{
    mix(mix(mix(mix(h, c.r as u64), c.g as u64), c.b as u64), c.a as u64)
}

/// The content hash of a renderable dialogue frame.  Deterministic:
/// calling it twice on equal contexts yields equal hashes, and the
/// hash reads nothing but the context.
pub fn dialogue_hash(c: &RenderContext) -> (r: u64)
    ensures
        r == spec_context_hash(*c),
{
    let mut h = hash_opt_str(hash_seed(), &c.background);
    h = hash_color(h, c.text_color);
    h = hash_color(h, c.dialogue_color);
    let ghost pre = h;
    let n = c.sprites.len();
    let mut i: usize = 0;
    while i < n
        invariant
            n == c.sprites@.len(),
            0 <= i <= n,
            h == spec_hash_sprites_upto(pre, c.sprites@, c.scales@, i as int),
        decreases n - i,
    {
        let scale: Option<String> = if i < c.scales.len() {
            match &c.scales[i] {
                Some(t) => Some(t.clone()),
                None => None,
            }
        } else {
            None
        };
        proof {
            assert(scale == spec_scale_at(c.scales@, i as int));
        }
        let sp = &c.sprites[i];
        let mut sh = hash_str(h, sp.name.as_str());
        sh = hash_opt_str(sh, &sp.sprite_path);
        sh = hash_opt_u32(sh, sp.x);
        sh = hash_opt_u32(sh, sp.y);
        sh = hash_opt_str(sh, &scale);
        h = sh;
        i = i + 1;
    }
    let r = hash_str(h, c.character_name.as_str());
    hash_str(r, c.dialogue.as_str())
}

/// The hash seed.
fn hash_seed() -> (r: u64)
    ensures
        r == spec_seed(),
{
    0xcbf29ce484222325u64
}

/// The first match in a cache index.
pub open spec fn spec_cache_get(entries: Seq<(u64, String)>, h: u64) -> Option<String>
    decreases entries.len(),
{
    if entries.len() == 0 {
        None
    } else if entries[0].0 == h {
        Some(entries[0].1)
    } else {
        spec_cache_get(entries.drop_first(), h)
    }
}

/// The index of rendered artifacts, keyed by content hash.  The
/// caller scans the cache directory once at enable time, hands the
/// discovered entries in, and appends an entry for every artifact
/// it writes; the cache then answers whether a frame needs
/// rendering at all.
pub struct RenderCache {
    /// The known artifacts: content hash and artifact path.
    pub entries: Vec<(u64, String)>,
}

impl RenderCache {
    /// An empty index.
    pub fn new() -> (r: Self)
        ensures
            r.entries@.len() == 0,
    {
        RenderCache { entries: Vec::new() }
    }

    /// The index built from a directory scan's findings.
    pub fn from_entries(entries: Vec<(u64, String)>) -> (r: Self)
        ensures
            r.entries == entries,
    {
        RenderCache { entries }
    }

    /// The artifact recorded for a hash, if any.
    pub fn lookup(&self, h: u64) -> (r: Option<&String>)
        ensures
            match r {
                Some(p) => spec_cache_get(self.entries@, h) == Some(*p),
                None => spec_cache_get(self.entries@, h) is None,
            },
    {
        let n = self.entries.len();
        let mut i: usize = 0;
        proof {
            lemma_cache_get_skip(self.entries@, h, 0);
        }
        while i < n
            invariant
                n == self.entries@.len(),
                0 <= i <= n,
                forall|j: int| 0 <= j < i ==> self.entries@[j].0 != h,
            decreases n - i,
        {
            if self.entries[i].0 == h {
                proof {
                    lemma_cache_get_skip(self.entries@, h, i as int);
                }
                let e = &self.entries[i];
                return Some(&e.1);
            }
            i = i + 1;
        }
        proof {
            lemma_cache_get_skip(self.entries@, h, n as int);
            assert(self.entries@.skip(n as int) =~= Seq::<(u64, String)>::empty());
        }
        None
    }

    /// Records a freshly written artifact: afterwards the hash looks
    /// up exactly this path, and every other hash reads as before.
    pub fn record(&mut self, h: u64, path: String)
        ensures
            spec_cache_get(final(self).entries@, h) == Some(path),
            forall|h2: u64|
                h2 != h ==> spec_cache_get(final(self).entries@, h2) == spec_cache_get(
                    old(self).entries@,
                    h2,
                ),
    {
        let ghost prev = self.entries@;
        let n = self.entries.len();
        let mut i: usize = 0;
        while i < n
            invariant
                n == self.entries@.len(),
                self.entries@ == prev,
                prev == old(self).entries@,
                0 <= i <= n,
                forall|j: int| 0 <= j < i ==> self.entries@[j].0 != h,
            decreases n - i,
        {
            if self.entries[i].0 == h {
                let p = (h, path);
                proof {
                    lemma_cache_get_update(prev, i as int, p);
                }
                self.entries.remove(i);
                self.entries.insert(i, p);
                proof {
                    assert(self.entries@ =~= prev.update(i as int, p));
                    assert forall|h2: u64|
                        h2 != h implies spec_cache_get(self.entries@, h2) == spec_cache_get(
                            prev,
                            h2,
                        ) by {
                        assert(spec_cache_get(prev.update(i as int, p), h2) == spec_cache_get(
                            prev,
                            h2,
                        ));
                    }
                }
                return ;
            }
            i = i + 1;
        }
        let p = (h, path);
        proof {
            lemma_cache_get_skip(prev, h, n as int);
            assert(prev.skip(n as int) =~= Seq::<(u64, String)>::empty());
            lemma_cache_get_push(prev, p);
        }
        self.entries.push(p);
    }
}

proof fn lemma_cache_get_skip(entries: Seq<(u64, String)>, h: u64, i: int)
    requires
        0 <= i <= entries.len(),
        forall|j: int| 0 <= j < i ==> entries[j].0 != h,
    ensures
        spec_cache_get(entries, h) == spec_cache_get(entries.skip(i), h),
    decreases i,
{
    if i == 0 {
        assert(entries.skip(0) =~= entries);
    } else {
        let t = entries.drop_first();
        assert forall|j: int| 0 <= j < t.len() implies t[j] == entries[j + 1] by {}
        lemma_cache_get_skip(t, h, i - 1);
        assert(t.skip(i - 1) =~= entries.skip(i));
    }
}

proof fn lemma_cache_get_push(entries: Seq<(u64, String)>, p: (u64, String))
    requires
        spec_cache_get(entries, p.0) is None,
    ensures
        ({
            let u = entries.push(p);
            &&& spec_cache_get(u, p.0) == Some(p.1)
            &&& forall|h2: u64|
                h2 != p.0 ==> spec_cache_get(u, h2) == spec_cache_get(entries, h2)
        }),
    decreases entries.len(),
{
    let u = entries.push(p);
    if entries.len() == 0 {
        assert(u.drop_first() =~= Seq::<(u64, String)>::empty());
        assert(u[0] == p);
        assert forall|h2: u64|
            h2 != p.0 implies spec_cache_get(u, h2) == spec_cache_get(entries, h2) by {
            assert(spec_cache_get(u.drop_first(), h2) is None);
        }
    } else {
        let t = entries.drop_first();
        assert(entries[0].0 != p.0);
        lemma_cache_get_push(t, p);
        assert(u.drop_first() =~= t.push(p));
        assert(u[0] == entries[0]);
        assert(spec_cache_get(u, p.0) == Some(p.1));
        assert forall|h2: u64|
            h2 != p.0 implies spec_cache_get(u, h2) == spec_cache_get(entries, h2) by {
            if entries[0].0 != h2 {
                assert(spec_cache_get(u.drop_first(), h2) == spec_cache_get(t.push(p), h2));
            }
        }
    }
}

proof fn lemma_cache_get_update(entries: Seq<(u64, String)>, j: int, p: (u64, String))
    requires
        0 <= j < entries.len(),
        p.0 == entries[j].0,
        forall|jj: int| 0 <= jj < j ==> entries[jj].0 != p.0,
    ensures
        spec_cache_get(entries.update(j, p), p.0) == Some(p.1),
        forall|h2: u64|
            h2 != p.0 ==> spec_cache_get(entries.update(j, p), h2) == spec_cache_get(entries, h2),
    decreases j,
{
    let u = entries.update(j, p);
    if j == 0 {
        assert(u.drop_first() =~= entries.drop_first());
        assert(u[0] == p);
        assert forall|h2: u64|
            h2 != p.0 implies spec_cache_get(u, h2) == spec_cache_get(entries, h2) by {
            assert(entries[0].0 == p.0);
        }
    } else {
        let t = entries.drop_first();
        assert forall|jj: int| 0 <= jj < t.len() implies t[jj] == entries[jj + 1] by {}
        lemma_cache_get_update(t, j - 1, p);
        assert(u.drop_first() =~= t.update(j - 1, p));
        assert(u[0] == entries[0]);
        assert(entries[0].0 != p.0);
        assert(spec_cache_get(u, p.0) == Some(p.1));
        assert forall|h2: u64|
            h2 != p.0 implies spec_cache_get(u, h2) == spec_cache_get(entries, h2) by {
            if entries[0].0 == h2 {
                assert(spec_cache_get(u, h2) == Some(u[0].1));
            } else {
                assert(spec_cache_get(u.drop_first(), h2) == spec_cache_get(t.update(j - 1, p), h2));
                assert(spec_cache_get(entries, h2) == spec_cache_get(t, h2));
            }
        }
    }
}

impl Engine {
    /// The renderable context of the current dialogue frame:
    /// background, visible sprites with their scales, speaker, the
    /// dialogue text joined by spaces, and the resolved colors.
    /// Nothing when the current event is not a dialogue block.
    pub fn render_context(&self) -> (r: Option<RenderContext>)
        ensures
            match r {
                Some(c) => {
                    &&& self.iscript < self.script.ctx@.len()
                    &&& self.script.ctx@[self.iscript as int] is Dialogue
                    &&& ({
                        let d = self.script.ctx@[self.iscript as int]->Dialogue_0;
                        &&& c.background == self.bg_path
                        &&& c.sprites@ == spec_visible(self.sprites@)
                        &&& c.scales@.len() == c.sprites@.len()
                        &&& (forall|k: int|
                            0 <= k < c.sprites@.len() ==> c.scales@[k] == spec_scale_attr(
                                self.attributes,
                                c.sprites@[k].name@,
                            ))
                        &&& c.character_name == d.character_name
                        &&& c.dialogue@ == spec_join_spaced(d.dialogues.deep_view())
                        &&& c.text_color == spec_text_color(self.attributes, d.character_name@)
                        &&& c.dialogue_color == spec_dialogue_color(
                            self.attributes,
                            d.character_name@,
                        )
                    })
                },
                None => self.iscript >= self.script.ctx@.len() || !(self.script.ctx@[
                    self.iscript as int] is Dialogue),
            },
    {
        if self.iscript >= self.script.ctx.len() {
            return None;
        }
        let d = match &self.script.ctx[self.iscript] {
            ScriptContext::Dialogue(d) => d,
            _ => {
                return None;
            },
        };
        let background = match &self.bg_path {
            Some(p) => Some(p.clone()),
            None => None,
        };
        let mut sprites: Vec<SpriteDirective> = Vec::new();
        let n = self.sprites.len();
        let mut i: usize = 0;
        proof {
            assert(self.sprites@.take(0) =~= Seq::<SpriteDirective>::empty());
            assert(spec_visible(self.sprites@.take(0)) =~= Seq::<SpriteDirective>::empty());
        }
        while i < n
            invariant
                n == self.sprites@.len(),
                0 <= i <= n,
                sprites@ == spec_visible(self.sprites@.take(i as int)),
            decreases n - i,
        {
            proof {
                assert(self.sprites@.take(i + 1).drop_last() =~= self.sprites@.take(i as int));
                assert(self.sprites@.take(i + 1).last() == self.sprites@[i as int]);
            }
            let sp = &self.sprites[i];
            if sp.show {
                sprites.push(duplicate_sprite(sp));
            }
            i = i + 1;
        }
        proof {
            assert(self.sprites@.take(n as int) =~= self.sprites@);
        }
        let mut scales: Vec<Option<String>> = Vec::new();
        let m = sprites.len();
        let mut k: usize = 0;
        while k < m
            invariant
                m == sprites@.len(),
                0 <= k <= m,
                scales@.len() == k,
                forall|j: int|
                    0 <= j < k ==> scales@[j] == spec_scale_attr(
                        self.attributes,
                        sprites@[j].name@,
                    ),
            decreases m - k,
        {
            let s = scale_attr(&self.attributes, sprites[k].name.as_str());
            scales.push(s);
            k = k + 1;
        }
        let mut dialogue = String::new();
        let dn = d.dialogues.len();
        let mut j: usize = 0;
        proof {
            assert(d.dialogues.deep_view().take(0) =~= Seq::<Seq<char>>::empty());
            assert(dialogue@ =~= spec_join_spaced(d.dialogues.deep_view().take(0)));
        }
        while j < dn
            invariant
                dn == d.dialogues@.len(),
                d.dialogues.deep_view().len() == dn,
                0 <= j <= dn,
                dialogue@ == spec_join_spaced(d.dialogues.deep_view().take(j as int)),
            decreases dn - j,
        {
            proof {
                let dv = d.dialogues.deep_view();
                assert(dv.take(j + 1).drop_last() =~= dv.take(j as int));
                assert(dv.take(j + 1).last() == dv[j as int]);
                assert(dv[j as int] == d.dialogues@[j as int]@);
            }
            dialogue = dialogue.concat(" ").concat(d.dialogues[j].as_str());
            j = j + 1;
        }
        proof {
            assert(d.dialogues.deep_view().take(dn as int) =~= d.dialogues.deep_view());
        }
        let tc = text_color(&self.attributes, d.character_name.as_str());
        let dc = dialogue_color(&self.attributes, d.character_name.as_str());
        Some(
            RenderContext {
                background,
                sprites,
                scales,
                character_name: d.character_name.clone(),
                dialogue,
                text_color: tc,
                dialogue_color: dc,
            },
        )
    }
}

/// The hash is a function of the context alone: equal contexts,
/// even built by different calls, hash equally.  With the exact
/// contracts above this is immediate, and it is what makes the
/// cache sound: a cached artifact is reused only for a frame whose
/// every pixel-relevant input matches.
pub proof fn lemma_hash_deterministic(c1: RenderContext, c2: RenderContext)
    requires
        c1 == c2,
    ensures
        spec_context_hash(c1) == spec_context_hash(c2),
{
}

} // verus!
