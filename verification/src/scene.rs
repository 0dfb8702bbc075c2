//! Reading the references of a scenario's scene (`.scn`) document.
//!
//! The scene document is a tree of elements; this module reads the
//! children of its root that name other files and entries (terrain, sky,
//! lightsets, minimap, cinematics, talking heads, objectives, sound banks).
//! An element is given as its name, text, attributes and, one level down,
//! its child elements.
use vstd::prelude::*;

use crate::text::{chars_of, lower_ascii, lower_ascii_chars, string_from_chars, trim_chars, trim_ws};

verus! {

/// An element below a child of the root: name, text and attributes.
#[derive(Debug, Clone, PartialEq, Eq)]
pub struct XmlLeaf {
    pub name: String,
    pub text: String,
    pub attributes: Vec<(String, String)>,
}

/// A child of the root: name, text, attributes and child elements.
#[derive(Debug, Clone, PartialEq, Eq)]
pub struct XmlElement {
    pub name: String,
    pub text: String,
    pub attributes: Vec<(String, String)>,
    pub children: Vec<XmlLeaf>,
}

/// The references of a scene.
#[derive(Debug, Clone, Default, PartialEq, Eq)]
pub struct ScenarioText {
    /// Terrain reference name.
    pub terrain: String,
    /// Whether to load the terrain visual representation.
    pub terrain_load_vis_rep: bool,
    /// Sky dome reference.
    pub sky: String,
    /// Sky environment texture path.
    pub terrain_env: String,
    /// Global lightset reference.
    pub lightset: String,
    /// Additional lightsets.
    pub lightsets: Vec<String>,
    /// Pathing reference.
    pub pathing: String,
    /// Minimap texture path.
    pub minimap_texture: String,
    /// Player placement type.
    pub player_placement_type: String,
    /// Cinematic references (ID, path).
    pub cinematics: Vec<(i32, String)>,
    /// Talking head references (ID, name).
    pub talking_heads: Vec<(i32, String)>,
    /// Objective names (ID, name).
    pub objectives: Vec<(i32, String)>,
    /// Sound bank names.
    pub sound_banks: Vec<String>,
}

// ── Integers ────────────────────────────────────────────────────────────

/// The value of a run of decimal digits.
pub open spec fn digits_value(s: Seq<char>) -> int
    decreases s.len(),
{
    if s.len() == 0 {
        0
    } else {
        digits_value(s.drop_last()) * 10 + (s.last() as int - '0' as int)
    }
}

/// Every character is an ASCII digit.
pub open spec fn all_digits(s: Seq<char>) -> bool {
    forall|i: int| 0 <= i < s.len() ==> '0' <= #[trigger] s[i] <= '9'
}

/// What `str::parse::<i32>` makes of a string: an optional `+` or `-`, then
/// one or more ASCII digits, the value in the range of `i32`.
pub open spec fn parse_i32_spec(s: Seq<char>) -> Option<i32> {
    let neg = s.len() > 0 && s[0] == '-';
    let body = if s.len() > 0 && (s[0] == '-' || s[0] == '+') {
        s.drop_first()
    } else {
        s
    };
    let v = if neg {
        -digits_value(body)
    } else {
        digits_value(body)
    };
    if body.len() > 0 && all_digits(body) && i32::MIN <= v <= i32::MAX {
        Some(v as i32)
    } else {
        None
    }
}

proof fn lemma_digits_nonneg(s: Seq<char>)
    requires
        all_digits(s),
    ensures
        digits_value(s) >= 0,
    decreases s.len(),
{
    if s.len() > 0 {
        assert(all_digits(s.drop_last())) by {
            assert forall|i: int| 0 <= i < s.drop_last().len() implies '0' <= #[trigger] s.drop_last()[i] <= '9' by {
                assert(s.drop_last()[i] == s[i]);
            }
        }
        lemma_digits_nonneg(s.drop_last());
        assert('0' <= s[s.len() - 1] <= '9');
    }
}

proof fn lemma_digits_grow(s: Seq<char>, i: int)
    requires
        all_digits(s),
        0 <= i <= s.len(),
    ensures
        digits_value(s.take(i)) <= digits_value(s),
    decreases s.len(),
{
    if i < s.len() {
        assert(all_digits(s.drop_last())) by {
            assert forall|j: int| 0 <= j < s.drop_last().len() implies '0' <= #[trigger] s.drop_last()[j] <= '9' by {
                assert(s.drop_last()[j] == s[j]);
            }
        }
        assert(s.drop_last().take(i) =~= s.take(i));
        lemma_digits_grow(s.drop_last(), i);
        lemma_digits_nonneg(s.drop_last());
        assert('0' <= s[s.len() - 1] <= '9');
    } else {
        assert(s.take(i) =~= s);
    }
}

/// Parses a decimal `i32` as `str::parse` does.
pub fn parse_i32(s: &str) -> (r: Option<i32>)
    ensures
        r == parse_i32_spec(s@),
{
    let c = chars_of(s);
    let n = c.len();
    let neg = n > 0 && c[0] == '-';
    let start: usize = if n > 0 && (c[0] == '-' || c[0] == '+') {
        1
    } else {
        0
    };
    let ghost body = if s@.len() > 0 && (s@[0] == '-' || s@[0] == '+') {
        s@.drop_first()
    } else {
        s@
    };
    proof {
        assert(body =~= c@.subrange(start as int, n as int));
    }
    if start == n {
        return None;
    }
    // Accumulate the magnitude, which may reach i32::MAX + 1 for a negative
    // number; anything above that does not fit either way.
    let mut v: u64 = 0;
    let mut i: usize = start;
    while i < n
        invariant
            start <= i <= n,
            n == c@.len(),
            c@ == s@,
            neg == (s@.len() > 0 && s@[0] == '-'),
            body == (if s@.len() > 0 && (s@[0] == '-' || s@[0] == '+') {
                s@.drop_first()
            } else {
                s@
            }),
            body == c@.subrange(start as int, n as int),
            all_digits(body.take(i - start)),
            v as int == digits_value(body.take(i - start)),
            v <= 2147483648,
        decreases n - i,
    {
        let d = c[i];
        let ghost t = body.take(i - start + 1);
        assert(t.drop_last() =~= body.take(i - start));
        assert(t.last() == d);
        if d < '0' || d > '9' {
            proof {
                assert(body[i - start] == d);
                assert(!all_digits(body));
            }
            return None;
        }
        let dv = (d as u32 - '0' as u32) as u64;
        assert(dv as int == d as int - '0' as int);
        let nv = v * 10 + dv;
        proof {
            assert(all_digits(t)) by {
                assert forall|j: int| 0 <= j < t.len() implies '0' <= #[trigger] t[j] <= '9' by {
                    if j < t.len() - 1 {
                        assert(t[j] == body.take(i - start)[j]);
                    }
                }
            }
        }
        if nv > 2147483648 {
            proof {
                if all_digits(body) {
                    lemma_digits_grow(body, i - start + 1);
                    assert(digits_value(t) == nv);
                }
            }
            return None;
        }
        v = nv;
        i = i + 1;
    }
    proof {
        assert(body.take(n - start) =~= body);
    }
    if neg {
        if v <= 2147483648 {
            let r: i64 = 0 - (v as i64);
            Some(r as i32)
        } else {
            None
        }
    } else {
        if v <= 2147483647 {
            Some(v as i32)
        } else {
            None
        }
    }
}

// ── The scene's references ──────────────────────────────────────────────

/// The mathematical content of a [`ScenarioText`].
pub struct SceneModel {
    pub terrain: Seq<char>,
    pub terrain_load_vis_rep: bool,
    pub sky: Seq<char>,
    pub terrain_env: Seq<char>,
    pub lightset: Seq<char>,
    pub lightsets: Seq<Seq<char>>,
    pub pathing: Seq<char>,
    pub minimap_texture: Seq<char>,
    pub player_placement_type: Seq<char>,
    pub cinematics: Seq<(i32, Seq<char>)>,
    pub talking_heads: Seq<(i32, Seq<char>)>,
    pub objectives: Seq<(i32, Seq<char>)>,
    pub sound_banks: Seq<Seq<char>>,
}

/// The views of `(id, text)` pairs.
pub open spec fn pair_views(ps: Seq<(i32, String)>) -> Seq<(i32, Seq<char>)> {
    ps.map_values(|p: (i32, String)| (p.0, p.1@))
}

/// The views of strings.
pub open spec fn text_views(ss: Seq<String>) -> Seq<Seq<char>> {
    ss.map_values(|s: String| s@)
}

impl View for ScenarioText {
    type V = SceneModel;

    open spec fn view(&self) -> SceneModel {
        SceneModel {
            terrain: self.terrain@,
            terrain_load_vis_rep: self.terrain_load_vis_rep,
            sky: self.sky@,
            terrain_env: self.terrain_env@,
            lightset: self.lightset@,
            lightsets: text_views(self.lightsets@),
            pathing: self.pathing@,
            minimap_texture: self.minimap_texture@,
            player_placement_type: self.player_placement_type@,
            cinematics: pair_views(self.cinematics@),
            talking_heads: pair_views(self.talking_heads@),
            objectives: pair_views(self.objectives@),
            sound_banks: text_views(self.sound_banks@),
        }
    }
}

/// The scene before any element is read: everything empty or false.
pub open spec fn empty_scene() -> SceneModel {
    SceneModel {
        terrain: Seq::empty(),
        terrain_load_vis_rep: false,
        sky: Seq::empty(),
        terrain_env: Seq::empty(),
        lightset: Seq::empty(),
        lightsets: Seq::empty(),
        pathing: Seq::empty(),
        minimap_texture: Seq::empty(),
        player_placement_type: Seq::empty(),
        cinematics: Seq::empty(),
        talking_heads: Seq::empty(),
        objectives: Seq::empty(),
        sound_banks: Seq::empty(),
    }
}

/// The value of the first attribute with the given name.
pub open spec fn attr_value(attrs: Seq<(String, String)>, name: Seq<char>) -> Option<Seq<char>>
    decreases attrs.len(),
{
    if attrs.len() == 0 {
        None
    } else if attrs[0].0@ == name {
        Some(attrs[0].1@)
    } else {
        attr_value(attrs.drop_first(), name)
    }
}

/// An attribute read as an `i32`: 0 when it is missing or not a number.
pub open spec fn attr_i32(attrs: Seq<(String, String)>, name: Seq<char>) -> i32 {
    let text = match attr_value(attrs, name) {
        Some(v) => v,
        None => Seq::empty(),
    };
    match parse_i32_spec(text) {
        Some(v) => v,
        None => 0,
    }
}

/// The trimmed, non-empty texts of the elements, in order.
pub open spec fn nonempty_texts(leaves: Seq<XmlLeaf>) -> Seq<Seq<char>>
    decreases leaves.len(),
{
    if leaves.len() == 0 {
        Seq::empty()
    } else {
        let prev = nonempty_texts(leaves.drop_last());
        let t = trim_ws(leaves.last().text@);
        if t.len() > 0 {
            prev.push(t)
        } else {
            prev
        }
    }
}

/// The trimmed text of the last `MinimapTexture` element, or `cur`.
pub open spec fn minimap_of(leaves: Seq<XmlLeaf>, cur: Seq<char>) -> Seq<char>
    decreases leaves.len(),
{
    if leaves.len() == 0 {
        cur
    } else {
        let prev = minimap_of(leaves.drop_last(), cur);
        if leaves.last().name@ == "MinimapTexture"@ {
            trim_ws(leaves.last().text@)
        } else {
            prev
        }
    }
}

/// For each element with the given name, its ID attribute and trimmed text.
pub open spec fn id_pairs(leaves: Seq<XmlLeaf>, elem: Seq<char>, id_attr: Seq<char>) -> Seq<(i32, Seq<char>)>
    decreases leaves.len(),
{
    if leaves.len() == 0 {
        Seq::empty()
    } else {
        let prev = id_pairs(leaves.drop_last(), elem, id_attr);
        let l = leaves.last();
        if l.name@ == elem {
            prev.push((attr_i32(l.attributes@, id_attr), trim_ws(l.text@)))
        } else {
            prev
        }
    }
}

/// `a` equals `b`, ignoring ASCII case.
pub open spec fn eq_ignore_case(a: Seq<char>, b: Seq<char>) -> bool {
    lower_ascii(a) == lower_ascii(b)
}

/// What one child of the root adds to the scene.
pub open spec fn read_child(acc: SceneModel, e: XmlElement) -> SceneModel {
    let n = e.name@;
    let leaves = e.children@;
    if n == "Terrain"@ {
        SceneModel {
            terrain: trim_ws(e.text@),
            terrain_load_vis_rep: match attr_value(e.attributes@, "LoadVisRep"@) {
                Some(v) => eq_ignore_case(v, "true"@),
                None => acc.terrain_load_vis_rep,
            },
            ..acc
        }
    } else if n == "Sky"@ {
        SceneModel { sky: trim_ws(e.text@), ..acc }
    } else if n == "TerrainEnv"@ {
        SceneModel { terrain_env: trim_ws(e.text@), ..acc }
    } else if n == "Lightset"@ {
        SceneModel { lightset: trim_ws(e.text@), ..acc }
    } else if n == "Lightsets"@ {
        SceneModel { lightsets: acc.lightsets + nonempty_texts(leaves), ..acc }
    } else if n == "Pathing"@ {
        SceneModel { pathing: trim_ws(e.text@), ..acc }
    } else if n == "PlayerPlacement"@ {
        match attr_value(e.attributes@, "Type"@) {
            Some(v) => SceneModel { player_placement_type: v, ..acc },
            None => acc,
        }
    } else if n == "Minimap"@ {
        SceneModel { minimap_texture: minimap_of(leaves, acc.minimap_texture), ..acc }
    } else if n == "Cinematics"@ {
        SceneModel { cinematics: acc.cinematics + id_pairs(leaves, "Cinematic"@, "ID"@), ..acc }
    } else if n == "TalkingHeads"@ {
        SceneModel { talking_heads: acc.talking_heads + id_pairs(leaves, "TalkingHead"@, "ID"@), ..acc }
    } else if n == "Objectives"@ {
        SceneModel { objectives: acc.objectives + id_pairs(leaves, "Objective"@, "id"@), ..acc }
    } else if n == "SoundBanks"@ {
        SceneModel { sound_banks: acc.sound_banks + nonempty_texts(leaves), ..acc }
    } else {
        acc
    }
}

/// The scene's references, read from the root's children in order.
pub open spec fn read_scene_spec(children: Seq<XmlElement>) -> SceneModel
    decreases children.len(),
{
    if children.len() == 0 {
        empty_scene()
    } else {
        read_child(read_scene_spec(children.drop_last()), children.last())
    }
}

fn trimmed(s: &String) -> (r: String)
    ensures
        r@ == trim_ws(s@),
{
    string_from_chars(trim_chars(chars_of(s.as_str()).as_slice()).as_slice())
}

fn find_attr<'a>(attrs: &'a Vec<(String, String)>, name: &str) -> (r: Option<&'a String>)
    ensures
        match r {
            Some(v) => attr_value(attrs@, name@) == Some(v@),
            None => attr_value(attrs@, name@) is None,
        },
{
    let n = String::from_str(name);
    let mut i: usize = 0;
    assert(attrs@.subrange(0, attrs@.len() as int) =~= attrs@);
    while i < attrs.len()
        invariant
            i <= attrs@.len(),
            n@ == name@,
            attr_value(attrs@, name@) == attr_value(attrs@.subrange(i as int, attrs@.len() as int), name@),
        decreases attrs@.len() - i,
    {
        let ghost rest = attrs@.subrange(i as int, attrs@.len() as int);
        assert(rest[0] == attrs@[i as int]);
        assert(rest.drop_first() =~= attrs@.subrange(i + 1, attrs@.len() as int));
        if attrs[i].0 == n {
            return Some(&attrs[i].1);
        }
        i = i + 1;
    }
    None
}

fn attr_int(attrs: &Vec<(String, String)>, name: &str) -> (r: i32)
    ensures
        r == attr_i32(attrs@, name@),
{
    let v = match find_attr(attrs, name) {
        Some(v) => parse_i32(v.as_str()),
        None => {
            let e = String::new();
            parse_i32(e.as_str())
        },
    };
    match v {
        Some(x) => x,
        None => 0,
    }
}

fn push_nonempty_texts(out: &mut Vec<String>, leaves: &Vec<XmlLeaf>)
    ensures
        text_views(final(out)@) == text_views(old(out)@) + nonempty_texts(leaves@),
{
    let mut i: usize = 0;
    while i < leaves.len()
        invariant
            i <= leaves@.len(),
            text_views(out@) == text_views(old(out)@) + nonempty_texts(leaves@.take(i as int)),
        decreases leaves@.len() - i,
    {
        let ghost t = leaves@.take(i + 1);
        assert(t.drop_last() =~= leaves@.take(i as int));
        assert(t.last() == leaves@[i as int]);
        let x = trimmed(&leaves[i].text);
        if x.as_str().unicode_len() > 0 {
            let ghost before = text_views(out@);
            let ghost xv = x@;
            out.push(x);
            assert(text_views(out@) =~= before.push(xv));
        }
        i = i + 1;
    }
    assert(leaves@.take(leaves@.len() as int) =~= leaves@);
}

fn push_id_pairs(out: &mut Vec<(i32, String)>, leaves: &Vec<XmlLeaf>, elem: &str, id_attr: &str)
    ensures
        pair_views(final(out)@) == pair_views(old(out)@) + id_pairs(leaves@, elem@, id_attr@),
{
    let en = String::from_str(elem);
    let mut i: usize = 0;
    while i < leaves.len()
        invariant
            i <= leaves@.len(),
            en@ == elem@,
            pair_views(out@) == pair_views(old(out)@) + id_pairs(leaves@.take(i as int), elem@, id_attr@),
        decreases leaves@.len() - i,
    {
        let ghost t = leaves@.take(i + 1);
        assert(t.drop_last() =~= leaves@.take(i as int));
        assert(t.last() == leaves@[i as int]);
        if leaves[i].name == en {
            let id = attr_int(&leaves[i].attributes, id_attr);
            let x = trimmed(&leaves[i].text);
            let ghost before = pair_views(out@);
            let ghost xv = x@;
            out.push((id, x));
            assert(pair_views(out@) =~= before.push((id, xv)));
        }
        i = i + 1;
    }
    assert(leaves@.take(leaves@.len() as int) =~= leaves@);
}

fn minimap_texture_of(leaves: &Vec<XmlLeaf>, cur: String) -> (r: String)
    ensures
        r@ == minimap_of(leaves@, cur@),
{
    let ghost c0 = cur@;
    let mut cur = cur;
    let mn = String::from_str("MinimapTexture");
    let mut i: usize = 0;
    while i < leaves.len()
        invariant
            i <= leaves@.len(),
            mn@ == "MinimapTexture"@,
            cur@ == minimap_of(leaves@.take(i as int), c0),
        decreases leaves@.len() - i,
    {
        let ghost t = leaves@.take(i + 1);
        assert(t.drop_last() =~= leaves@.take(i as int));
        assert(t.last() == leaves@[i as int]);
        if leaves[i].name == mn {
            cur = trimmed(&leaves[i].text);
        }
        i = i + 1;
    }
    assert(leaves@.take(leaves@.len() as int) =~= leaves@);
    cur
}

fn is_named(e: &XmlElement, name: &str) -> (r: bool)
    ensures
        r == (e.name@ == name@),
{
    e.name == String::from_str(name)
}

/// Reads the references of a scene from the children of its root, in order.
/// For a repeated element the later one wins; list elements accumulate.
pub fn read_scene(children: &Vec<XmlElement>) -> (r: ScenarioText)
    ensures
        r@ == read_scene_spec(children@),
{
    let mut acc = ScenarioText {
        terrain: String::new(),
        terrain_load_vis_rep: false,
        sky: String::new(),
        terrain_env: String::new(),
        lightset: String::new(),
        lightsets: Vec::new(),
        pathing: String::new(),
        minimap_texture: String::new(),
        player_placement_type: String::new(),
        cinematics: Vec::new(),
        talking_heads: Vec::new(),
        objectives: Vec::new(),
        sound_banks: Vec::new(),
    };
    assert(acc@ =~= empty_scene()) by {
        assert(text_views(acc.lightsets@) =~= Seq::<Seq<char>>::empty());
        assert(text_views(acc.sound_banks@) =~= Seq::<Seq<char>>::empty());
        assert(pair_views(acc.cinematics@) =~= Seq::<(i32, Seq<char>)>::empty());
        assert(pair_views(acc.talking_heads@) =~= Seq::<(i32, Seq<char>)>::empty());
        assert(pair_views(acc.objectives@) =~= Seq::<(i32, Seq<char>)>::empty());
    }
    let mut i: usize = 0;
    while i < children.len()
        invariant
            i <= children@.len(),
            acc@ == read_scene_spec(children@.take(i as int)),
        decreases children@.len() - i,
    {
        let ghost t = children@.take(i + 1);
        assert(t.drop_last() =~= children@.take(i as int));
        assert(t.last() == children@[i as int]);
        let e = &children[i];
        let ghost before = acc@;
        proof {
            reveal_strlit("Terrain");
            reveal_strlit("Sky");
            reveal_strlit("TerrainEnv");
            reveal_strlit("Lightset");
            reveal_strlit("Lightsets");
            reveal_strlit("Pathing");
            reveal_strlit("PlayerPlacement");
            reveal_strlit("Minimap");
            reveal_strlit("Cinematics");
            reveal_strlit("TalkingHeads");
            reveal_strlit("Objectives");
            reveal_strlit("SoundBanks");
        }
        if is_named(e, "Terrain") {
            acc.terrain = trimmed(&e.text);
            match find_attr(&e.attributes, "LoadVisRep") {
                Some(v) => {
                    let lv = lower_ascii_chars(chars_of(v.as_str()).as_slice());
                    let lt = lower_ascii_chars(chars_of("true").as_slice());
                    acc.terrain_load_vis_rep = crate::text::chars_eq(lv.as_slice(), lt.as_slice());
                },
                None => {},
            }
        } else if is_named(e, "Sky") {
            acc.sky = trimmed(&e.text);
        } else if is_named(e, "TerrainEnv") {
            acc.terrain_env = trimmed(&e.text);
        } else if is_named(e, "Lightset") {
            acc.lightset = trimmed(&e.text);
        } else if is_named(e, "Lightsets") {
            push_nonempty_texts(&mut acc.lightsets, &e.children);
        } else if is_named(e, "Pathing") {
            acc.pathing = trimmed(&e.text);
        } else if is_named(e, "PlayerPlacement") {
            match find_attr(&e.attributes, "Type") {
                Some(v) => {
                    acc.player_placement_type = v.clone();
                },
                None => {},
            }
        } else if is_named(e, "Minimap") {
            let cur = acc.minimap_texture.clone();
            acc.minimap_texture = minimap_texture_of(&e.children, cur);
        } else if is_named(e, "Cinematics") {
            push_id_pairs(&mut acc.cinematics, &e.children, "Cinematic", "ID");
        } else if is_named(e, "TalkingHeads") {
            push_id_pairs(&mut acc.talking_heads, &e.children, "TalkingHead", "ID");
        } else if is_named(e, "Objectives") {
            push_id_pairs(&mut acc.objectives, &e.children, "Objective", "id");
        } else if is_named(e, "SoundBanks") {
            push_nonempty_texts(&mut acc.sound_banks, &e.children);
        }
        assert(acc@ =~= read_child(before, *e));
        i = i + 1;
    }
    assert(children@.take(children@.len() as int) =~= children@);
    acc
}

// ── What each element adds ──────────────────────────────────────────────

/// Whether a leaf has the given element name.
pub open spec fn named(elem: Seq<char>) -> spec_fn(XmlLeaf) -> bool {
    |l: XmlLeaf| l.name@ == elem
}

/// A leaf's ID attribute (read as a number, 0 when missing) and its trimmed
/// text.
pub open spec fn id_and_text(id_attr: Seq<char>) -> spec_fn(XmlLeaf) -> (i32, Seq<char>) {
    |l: XmlLeaf| (attr_i32(l.attributes@, id_attr), trim_ws(l.text@))
}

/// A leaf's trimmed text.
pub open spec fn leaf_text() -> spec_fn(XmlLeaf) -> Seq<char> {
    |l: XmlLeaf| trim_ws(l.text@)
}

/// Whether a text is not empty.
pub open spec fn not_blank() -> spec_fn(Seq<char>) -> bool {
    |t: Seq<char>| t.len() > 0
}

/// The `(ID, trimmed text)` of every leaf with the given name, in order.
proof fn lemma_id_pairs_are_filtered(leaves: Seq<XmlLeaf>, elem: Seq<char>, id_attr: Seq<char>)
    ensures
        id_pairs(leaves, elem, id_attr) == leaves.filter(named(elem)).map_values(id_and_text(id_attr)),
    decreases leaves.len(),
{
    reveal(Seq::filter);
    if leaves.len() > 0 {
        lemma_id_pairs_are_filtered(leaves.drop_last(), elem, id_attr);
        let pred = named(elem);
        let g = id_and_text(id_attr);
        let prev = leaves.drop_last().filter(pred);
        if pred(leaves.last()) {
            assert(leaves.filter(pred) == prev.push(leaves.last()));
            assert(prev.push(leaves.last()).map_values(g) =~= prev.map_values(g).push(g(leaves.last())));
        } else {
            assert(leaves.filter(pred) == prev);
        }
    }
}

/// The trimmed texts of the leaves, in order, the empty ones left out.
proof fn lemma_texts_are_filtered(leaves: Seq<XmlLeaf>)
    ensures
        nonempty_texts(leaves) == leaves.map_values(leaf_text()).filter(not_blank()),
    decreases leaves.len(),
{
    reveal(Seq::filter);
    if leaves.len() > 0 {
        lemma_texts_are_filtered(leaves.drop_last());
        let g = leaf_text();
        assert(leaves.map_values(g).drop_last() =~= leaves.drop_last().map_values(g));
        assert(leaves.map_values(g).last() == g(leaves.last()));
    }
}

/// Reading one more root child: a `TalkingHeads`, `Cinematics` or
/// `Objectives` element appends, in order, the ID attribute (`ID`, or `id`
/// for objectives) and the trimmed text of each of its `TalkingHead`,
/// `Cinematic` or `Objective` children; a `Lightsets` or `SoundBanks`
/// element appends the trimmed text of each child whose text is not blank;
/// a `Terrain`, `Sky`, `TerrainEnv`, `Lightset` or `Pathing` element sets
/// that reference to its trimmed text, the later element winning. Every
/// other list of the scene is left as it was.
pub proof fn law_scene_element_effect(children: Seq<XmlElement>, e: XmlElement)
    ensures
        e.name@ == "TalkingHeads"@ ==> read_scene_spec(children.push(e)).talking_heads == read_scene_spec(children).talking_heads + e.children@.filter(named("TalkingHead"@)).map_values(
            id_and_text("ID"@),
        ),
        e.name@ == "Cinematics"@ ==> read_scene_spec(children.push(e)).cinematics == read_scene_spec(children).cinematics + e.children@.filter(named("Cinematic"@)).map_values(
            id_and_text("ID"@),
        ),
        e.name@ == "Objectives"@ ==> read_scene_spec(children.push(e)).objectives == read_scene_spec(children).objectives + e.children@.filter(named("Objective"@)).map_values(
            id_and_text("id"@),
        ),
        e.name@ == "Lightsets"@ ==> read_scene_spec(children.push(e)).lightsets == read_scene_spec(children).lightsets + e.children@.map_values(leaf_text()).filter(
            not_blank(),
        ),
        e.name@ == "SoundBanks"@ ==> read_scene_spec(children.push(e)).sound_banks == read_scene_spec(children).sound_banks + e.children@.map_values(leaf_text()).filter(
            not_blank(),
        ),
        e.name@ == "Terrain"@ ==> read_scene_spec(children.push(e)).terrain == trim_ws(e.text@),
        e.name@ == "Sky"@ ==> read_scene_spec(children.push(e)).sky == trim_ws(e.text@),
        e.name@ == "TerrainEnv"@ ==> read_scene_spec(children.push(e)).terrain_env == trim_ws(e.text@),
        e.name@ == "Lightset"@ ==> read_scene_spec(children.push(e)).lightset == trim_ws(e.text@),
        e.name@ == "Pathing"@ ==> read_scene_spec(children.push(e)).pathing == trim_ws(e.text@),
        e.name@ != "TalkingHeads"@ ==> read_scene_spec(children.push(e)).talking_heads == read_scene_spec(children).talking_heads,
        e.name@ != "Cinematics"@ ==> read_scene_spec(children.push(e)).cinematics == read_scene_spec(children).cinematics,
        e.name@ != "Objectives"@ ==> read_scene_spec(children.push(e)).objectives == read_scene_spec(children).objectives,
        e.name@ != "Lightsets"@ ==> read_scene_spec(children.push(e)).lightsets == read_scene_spec(children).lightsets,
        e.name@ != "SoundBanks"@ ==> read_scene_spec(children.push(e)).sound_banks == read_scene_spec(children).sound_banks,
{
    let leaves = e.children@;
    reveal_strlit("Terrain");
    reveal_strlit("Sky");
    reveal_strlit("TerrainEnv");
    reveal_strlit("Lightset");
    reveal_strlit("Lightsets");
    reveal_strlit("Pathing");
    reveal_strlit("PlayerPlacement");
    reveal_strlit("Minimap");
    reveal_strlit("Cinematics");
    reveal_strlit("TalkingHeads");
    reveal_strlit("Objectives");
    reveal_strlit("SoundBanks");
    assert(children.push(e).drop_last() =~= children);
    lemma_id_pairs_are_filtered(leaves, "TalkingHead"@, "ID"@);
    lemma_id_pairs_are_filtered(leaves, "Cinematic"@, "ID"@);
    lemma_id_pairs_are_filtered(leaves, "Objective"@, "id"@);
    lemma_texts_are_filtered(leaves);
    // Each name differs from the names tested before it in `read_child`.
    let th = "TalkingHeads"@;
    let ci = "Cinematics"@;
    assert(th.len() == 12 && th[1] == 'a' && ci.len() == 10 && ci[0] == 'C');
    assert("Terrain"@.len() == 7 && "Sky"@.len() == 3 && "Lightset"@.len() == 8 && "Lightsets"@.len() == 9);
    assert("TerrainEnv"@.len() == 10 && "TerrainEnv"@[0] == 'T' && "Pathing"@.len() == 7);
    assert("PlayerPlacement"@.len() == 15 && "Minimap"@.len() == 7);
    assert("SoundBanks"@.len() == 10 && "SoundBanks"@[0] == 'S' && "Objectives"@.len() == 10 && "Objectives"@[0] == 'O');
    assert("Pathing"@[0] == 'P' && "Terrain"@[0] == 'T');
}

} // verus!

