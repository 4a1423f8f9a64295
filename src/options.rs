use vstd::prelude::*;
use vstd::string::StringExecFns;

use crate::geometry::{Point, Size};
use crate::protocol::ZIndex;
use crate::text::{
    chars_of, decimal, free_of, i32_of, int_of, is_word, join, lemma_decimal, lemma_split_concat,
    lemma_split_free, lemma_split_join, parse_i32, parse_usize, split, split_ranges, usize_of,
};

verus! {

/// What a client asks for when it opens a frame.
#[derive(Clone, Debug)]
pub struct FrameOptions {
    pub min_size: Size,
    pub max_size: Size,
    pub size: Size,
    pub pos: Point,
    pub title: String,
    pub transparent: bool,
    pub can_minimise: bool,
    pub can_resize: bool,
    pub can_close: bool,
    pub z_lock: ZIndex,
    pub parent: Option<usize>,
}

/// The mathematical content of a `FrameOptions`.
pub struct OptionsModel {
    pub min_size: Size,
    pub max_size: Size,
    pub size: Size,
    pub pos: Point,
    pub title: Seq<char>,
    pub transparent: bool,
    pub can_minimise: bool,
    pub can_resize: bool,
    pub can_close: bool,
    pub z_lock: ZIndex,
    pub parent: Option<usize>,
}

impl View for FrameOptions {
    type V = OptionsModel;

    open spec fn view(&self) -> OptionsModel {
        OptionsModel {
            min_size: self.min_size,
            max_size: self.max_size,
            size: self.size,
            pos: self.pos,
            title: self.title@,
            transparent: self.transparent,
            can_minimise: self.can_minimise,
            can_resize: self.can_resize,
            can_close: self.can_close,
            z_lock: self.z_lock,
            parent: self.parent,
        }
    }
}

impl OptionsModel {
    /// The bounds are ordered and the size lies between them.
    pub open spec fn wf(self) -> bool {
        self.min_size.le(self.max_size) && self.min_size.le(self.size) && self.size.le(
            self.max_size,
        )
    }
}

pub open spec fn default_options() -> OptionsModel {
    OptionsModel {
        min_size: Size { width: 0, height: 0 },
        max_size: Size { width: i32::MAX, height: i32::MAX },
        size: Size { width: 0, height: 0 },
        pos: Point { x: 0, y: 0 },
        title: Seq::empty(),
        transparent: false,
        can_minimise: false,
        can_resize: false,
        can_close: false,
        z_lock: ZIndex::Automatic,
        parent: None,
    }
}

pub open spec fn or_zero_i32(v: Option<i32>) -> i32 {
    match v {
        Some(x) => x,
        None => 0,
    }
}

/// `W,H` or `X,Y`: the first two comma-separated numbers, each 0 where it does not parse.
pub open spec fn coord_of(v: Seq<char>) -> (i32, i32) {
    let p = split(v, ',');
    (or_zero_i32(i32_of(p[0])), if p.len() > 1 {
        or_zero_i32(i32_of(p[1]))
    } else {
        0
    })
}

pub open spec fn size_of_coord(c: (i32, i32)) -> Size {
    Size { width: c.0, height: c.1 }
}

/// The options after one `&`-separated token, or `None` for an unknown one.
pub open spec fn apply_option(o: OptionsModel, t: Seq<char>) -> Option<OptionsModel> {
    if t == "minimise"@ {
        Some(OptionsModel { can_minimise: true, ..o })
    } else if t == "resize"@ {
        Some(OptionsModel { can_resize: true, ..o })
    } else if t == "close"@ {
        Some(OptionsModel { can_close: true, ..o })
    } else if t == "transparent"@ {
        Some(OptionsModel { transparent: true, ..o })
    } else if t == "z-lock=back"@ {
        Some(OptionsModel { z_lock: ZIndex::Back, ..o })
    } else if t == "z-lock=front"@ {
        Some(OptionsModel { z_lock: ZIndex::Front, ..o })
    } else {
        let kv = split(t, '=');
        let key = kv[0];
        let value = if kv.len() > 1 {
            kv[1]
        } else {
            Seq::empty()
        };
        let c = size_of_coord(coord_of(value));
        if key == "min-size"@ {
            Some(OptionsModel { min_size: c, ..o })
        } else if key == "max-size"@ {
            Some(OptionsModel { max_size: c, ..o })
        } else if key == "size"@ {
            Some(OptionsModel { size: c, ..o })
        } else if key == "pos"@ {
            Some(OptionsModel { pos: Point { x: c.width, y: c.height }, ..o })
        } else if key == "title"@ {
            Some(OptionsModel { title: value, ..o })
        } else if key == "parent"@ {
            Some(
                OptionsModel {
                    parent: Some(
                        match usize_of(value) {
                            Some(p) => p,
                            None => 0,
                        },
                    ),
                    ..o
                },
            )
        } else {
            None
        }
    }
}

/// The options after the tokens `t`, applied from the first.
pub open spec fn apply_options(t: Seq<Seq<char>>) -> Option<OptionsModel>
    decreases t.len(),
{
    if t.len() == 0 {
        Some(default_options())
    } else {
        match apply_options(t.drop_last()) {
            Some(o) => apply_option(o, t.last()),
            None => None,
        }
    }
}

/// The least size lowered to the greatest where it exceeds it, then the size
/// clamped between those final bounds.
pub open spec fn finish_options(o: OptionsModel) -> OptionsModel {
    let min_size = o.min_size.spec_min(o.max_size);
    OptionsModel { min_size, size: o.size.spec_clamp(min_size, o.max_size), ..o }
}

/// The part of a token before its first `=`: the key it names.
pub open spec fn key_of(t: Seq<char>) -> Seq<char> {
    split(t, '=')[0]
}

/// The error for an option string whose token `t` is unknown.
pub open spec fn option_error(t: Seq<char>) -> Seq<char> {
    "Invalid option "@ + key_of(t) + " or invalid value"@
}

/// The options that an option string stands for, or `None` when it holds an unknown token.
pub open spec fn options_of(s: Seq<char>) -> Option<OptionsModel> {
    match apply_options(split(s, '&')) {
        Some(o) => Some(finish_options(o)),
        None => None,
    }
}

proof fn lemma_apply_options_stuck(t: Seq<Seq<char>>, j: int)
    requires
        0 <= j <= t.len(),
        apply_options(t.subrange(0, j)) is None,
    ensures
        apply_options(t) is None,
    decreases t.len() - j,
{
    if j < t.len() {
        assert(t.subrange(0, j + 1).drop_last() =~= t.subrange(0, j));
        lemma_apply_options_stuck(t, j + 1);
    } else {
        assert(t.subrange(0, j) =~= t);
    }
}

/// The first two comma-separated numbers of `s`, each 0 where it does not parse.
pub fn parse_coord(s: &str) -> (r: (i32, i32))
    ensures
        r == coord_of(s@),
{
    let chars = chars_of(s);
    assert(chars@.subrange(0, chars@.len() as int) =~= s@);
    parse_coord_in(&chars, 0, chars.len())
}

fn parse_coord_in(chars: &Vec<char>, start: usize, end: usize) -> (r: (i32, i32))
    requires
        start <= end <= chars@.len(),
    ensures
        r == coord_of(chars@.subrange(start as int, end as int)),
{
    let parts = split_ranges(chars, start, end, ',');
    let (a, b) = parts[0];
    let x = match parse_i32(chars, a, b) {
        Some(v) => v,
        None => 0,
    };
    let y = if parts.len() > 1 {
        let (c, d) = parts[1];
        match parse_i32(chars, c, d) {
            Some(v) => v,
            None => 0,
        }
    } else {
        0
    };
    (x, y)
}

impl FrameOptions {
    /// Every option at its default: no size bounds but the largest, all capabilities off.
    pub fn new_default() -> (r: FrameOptions)
        ensures
            r@ == default_options(),
    {
        FrameOptions {
            min_size: Size::new(0, 0),
            max_size: Size::new(i32::MAX, i32::MAX),
            size: Size::new(0, 0),
            pos: Point::new(0, 0),
            title: String::new(),
            transparent: false,
            can_minimise: false,
            can_resize: false,
            can_close: false,
            z_lock: ZIndex::Automatic,
            parent: None,
        }
    }

    /// Lowers the least size to the greatest where it exceeds it, clamps the size
    /// between the resulting bounds and moves the position
    /// out of negative coordinates.
    pub fn normalise(self) -> (r: FrameOptions)
        ensures
            r@.wf(),
            r.min_size == self.min_size.spec_min(self.max_size),
            r.max_size == self.max_size,
            r.size == self.size.spec_clamp(r.min_size, r.max_size),
            r.pos == (Point {
                x: if self.pos.x >= 0 {
                    self.pos.x
                } else {
                    0
                },
                y: if self.pos.y >= 0 {
                    self.pos.y
                } else {
                    0
                },
            }),
            r.title@ == self.title@,
            r.transparent == self.transparent,
            r.can_minimise == self.can_minimise,
            r.can_resize == self.can_resize,
            r.can_close == self.can_close,
            r.z_lock == self.z_lock,
            r.parent == self.parent,
    {
        let min_size = self.min_size.min(self.max_size);
        let size = self.size.clamp(min_size, self.max_size);
        FrameOptions {
            min_size,
            size,
            pos: Point::new(
                if self.pos.x >= 0 {
                    self.pos.x
                } else {
                    0
                },
                if self.pos.y >= 0 {
                    self.pos.y
                } else {
                    0
                },
            ),
            ..self
        }
    }

    fn apply_token(&mut self, src: &str, chars: &Vec<char>, start: usize, end: usize) -> (ok: bool)
        requires
            start <= end <= chars@.len(),
            chars@ == src@,
        ensures
            ok == apply_option(old(self)@, chars@.subrange(start as int, end as int)) is Some,
            ok ==> final(self)@ == apply_option(
                old(self)@,
                chars@.subrange(start as int, end as int),
            )->0,
    {
        if is_word(chars, start, end, "minimise") {
            self.can_minimise = true;
        } else if is_word(chars, start, end, "resize") {
            self.can_resize = true;
        } else if is_word(chars, start, end, "close") {
            self.can_close = true;
        } else if is_word(chars, start, end, "transparent") {
            self.transparent = true;
        } else if is_word(chars, start, end, "z-lock=back") {
            self.z_lock = ZIndex::Back;
        } else if is_word(chars, start, end, "z-lock=front") {
            self.z_lock = ZIndex::Front;
        } else {
            let kv = split_ranges(chars, start, end, '=');
            let (ks, ke) = kv[0];
            let (vs, ve) = if kv.len() > 1 {
                kv[1]
            } else {
                (end, end)
            };
            assert(chars@.subrange(end as int, end as int) =~= Seq::<char>::empty());
            let c = parse_coord_in(chars, vs, ve);
            let c = Size::new(c.0, c.1);
            if is_word(chars, ks, ke, "min-size") {
                self.min_size = c;
            } else if is_word(chars, ks, ke, "max-size") {
                self.max_size = c;
            } else if is_word(chars, ks, ke, "size") {
                self.size = c;
            } else if is_word(chars, ks, ke, "pos") {
                self.pos = Point::new(c.width, c.height);
            } else if is_word(chars, ks, ke, "title") {
                self.title = src.substring_char(vs, ve).to_owned();
            } else if is_word(chars, ks, ke, "parent") {
                self.parent = Some(
                    match parse_usize(chars, vs, ve) {
                        Some(p) => p,
                        None => 0,
                    },
                );
            } else {
                return false;
            }
        }
        true
    }

    /// Reads an option string: `&`-separated tokens, each a bare word
    /// (`minimise`, `resize`, `close`, `transparent`, `z-lock=back`, `z-lock=front`)
    /// or `key=value` (`min-size=W,H`, `max-size=W,H`, `size=W,H`, `pos=X,Y`,
    /// `title=T`, `parent=ID`). Values are taken as given; at the end a least size
    /// above the greatest is lowered to it and the size is clamped between the final
    /// bounds. Fails on the first unknown token, naming its key.
    pub fn from_string(src: &str) -> (r: Result<FrameOptions, String>)
        ensures
            r is Ok <==> options_of(src@) is Some,
            r is Ok ==> r->Ok_0@ == options_of(src@)->0,
            r is Ok ==> r->Ok_0@.wf(),
            r matches Err(e) ==> exists|j: int|
                0 <= j < split(src@, '&').len() && apply_options(split(src@, '&').subrange(0, j))
                    is Some && apply_option(
                    apply_options(split(src@, '&').subrange(0, j))->0,
                    split(src@, '&')[j],
                ) is None && e@ == option_error(split(src@, '&')[j]),
    {
        let chars = chars_of(src);
        let n = chars.len();
        assert(chars@.subrange(0, n as int) =~= src@);
        let tokens = split_ranges(&chars, 0, n, '&');
        let ghost t = split(src@, '&');
        let mut options = FrameOptions::new_default();
        let mut j: usize = 0;
        assert(t.subrange(0, 0) =~= Seq::<Seq<char>>::empty());
        while j < tokens.len()
            invariant
                j <= tokens@.len(),
                tokens@.len() == t.len(),
                n == chars@.len(),
                chars@ == src@,
                t == split(src@, '&'),
                forall|k: int|
                    #![trigger tokens@[k]]
                    0 <= k < tokens@.len() ==> 0 <= tokens@[k].0 <= tokens@[k].1 <= n
                        && chars@.subrange(tokens@[k].0 as int, tokens@[k].1 as int) == t[k],
                apply_options(t.subrange(0, j as int)) == Some(options@),
            decreases tokens@.len() - j,
        {
            let (a, b) = tokens[j];
            assert(t.subrange(0, j + 1).drop_last() =~= t.subrange(0, j as int));
            let ghost before = options@;
            if !options.apply_token(src, &chars, a, b) {
                proof {
                    lemma_apply_options_stuck(t, j + 1);
                }
                let kv = split_ranges(&chars, a, b, '=');
                let (ks, ke) = kv[0];
                let mut e = "Invalid option ".to_owned();
                e.append(src.substring_char(ks, ke));
                e.append(" or invalid value");
                assert(e@ =~= option_error(t[j as int]));
                assert(apply_options(t.subrange(0, j as int)) == Some(before));
                assert(apply_option(before, t[j as int]) is None);
                return Err(e);
            }
            j += 1;
        }
        assert(t.subrange(0, j as int) =~= t);
        let min_size = options.min_size.min(options.max_size);
        let size = options.size.clamp(min_size, options.max_size);
        Ok(FrameOptions { min_size, size, ..options })
    }
}

/// `key=A,B`, the numbers in decimal.
pub open spec fn coord_token(key: Seq<char>, a: int, b: int) -> Seq<char> {
    key + seq!['='] + (decimal(a) + seq![','] + decimal(b))
}

pub open spec fn with_flag(t: Seq<Seq<char>>, on: bool, word: Seq<char>) -> Seq<Seq<char>> {
    if on {
        t.push(word)
    } else {
        t
    }
}

/// The tokens of the canonical option string of `o`: the four coordinate pairs, the
/// title, the parent if any, then each capability that is on and the stacking
/// preference unless it is automatic.
pub open spec fn option_tokens(o: OptionsModel) -> Seq<Seq<char>> {
    let t = seq![
        coord_token("min-size"@, o.min_size.width as int, o.min_size.height as int),
        coord_token("max-size"@, o.max_size.width as int, o.max_size.height as int),
        coord_token("size"@, o.size.width as int, o.size.height as int),
        coord_token("pos"@, o.pos.x as int, o.pos.y as int),
        "title"@ + seq!['='] + o.title,
    ];
    let t = match o.parent {
        Some(p) => t.push("parent"@ + seq!['='] + decimal(p as int)),
        None => t,
    };
    let t = with_flag(t, o.can_minimise, "minimise"@);
    let t = with_flag(t, o.can_resize, "resize"@);
    let t = with_flag(t, o.can_close, "close"@);
    let t = with_flag(t, o.transparent, "transparent"@);
    match o.z_lock {
        ZIndex::Back => t.push("z-lock=back"@),
        ZIndex::Front => t.push("z-lock=front"@),
        ZIndex::Automatic => t,
    }
}

/// The canonical option string of `o`.
pub open spec fn canonical_options(o: OptionsModel) -> Seq<char> {
    join(option_tokens(o), '&')
}

/// A `key=value` token is none of the bare words, and splits at its first `=`.
proof fn lemma_key_value(key: Seq<char>, value: Seq<char>)
    requires
        key.len() >= 3,
        free_of(key, '='),
        free_of(value, '='),
        key[0] != 'z',
    ensures
        ({
            let t = key + seq!['='] + value;
            &&& t != "minimise"@
            &&& t != "resize"@
            &&& t != "close"@
            &&& t != "transparent"@
            &&& t != "z-lock=back"@
            &&& t != "z-lock=front"@
            &&& split(t, '=') == seq![key, value]
        }),
{
    reveal_strlit("minimise");
    reveal_strlit("resize");
    reveal_strlit("close");
    reveal_strlit("transparent");
    reveal_strlit("z-lock=back");
    reveal_strlit("z-lock=front");
    lemma_keys();
    let t = key + seq!['='] + value;
    assert(t[key.len() as int] == '=');
    assert(t[0] == key[0]);
    assert(t != "z-lock=back"@) by {
        if t == "z-lock=back"@ {
            assert("z-lock=back"@[0] == 'z');
        }
    }
    assert(t != "z-lock=front"@) by {
        if t == "z-lock=front"@ {
            assert("z-lock=front"@[0] == 'z');
        }
    }
    assert(t != "minimise"@) by {
        if t == "minimise"@ {
            assert(t[key.len() as int] == '=');
        }
    }
    assert(t != "resize"@) by {
        if t == "resize"@ {
            assert(t[key.len() as int] == '=');
        }
    }
    assert(t != "close"@) by {
        if t == "close"@ {
            assert(t[key.len() as int] == '=');
        }
    }
    assert(t != "transparent"@) by {
        if t == "transparent"@ {
            assert(t[key.len() as int] == '=');
        }
    }
    lemma_split_concat(key, value, '=');
    lemma_split_free(key, '=');
    lemma_split_free(value, '=');
    assert(seq![key] + seq![value] =~= seq![key, value]);
}

proof fn lemma_keys()
    ensures
        free_of("min-size"@, '=') && free_of("min-size"@, '&') && "min-size"@.len() == 8,
        free_of("max-size"@, '=') && free_of("max-size"@, '&') && "max-size"@.len() == 8,
        free_of("size"@, '=') && free_of("size"@, '&') && "size"@.len() == 4,
        free_of("pos"@, '=') && free_of("pos"@, '&') && "pos"@.len() == 3,
        free_of("title"@, '=') && free_of("title"@, '&') && "title"@.len() == 5,
        free_of("parent"@, '=') && free_of("parent"@, '&') && "parent"@.len() == 6,
        "min-size"@[0] != 'z' && "max-size"@[0] != 'z' && "size"@[0] != 'z',
        "pos"@[0] != 'z' && "title"@[0] != 'z' && "parent"@[0] != 'z',
        "min-size"@ != "max-size"@,
        free_of("minimise"@, '&') && free_of("resize"@, '&') && free_of("close"@, '&'),
        free_of("minimise"@, '=') && free_of("resize"@, '=') && free_of("close"@, '='),
        free_of("transparent"@, '='),
        free_of("transparent"@, '&') && free_of("z-lock=back"@, '&') && free_of("z-lock=front"@, '&'),
        "resize"@ != "minimise"@,
        "close"@ != "minimise"@ && "close"@ != "resize"@,
        "transparent"@ != "minimise"@ && "transparent"@ != "resize"@ && "transparent"@ != "close"@,
        "z-lock=back"@ != "minimise"@ && "z-lock=back"@ != "resize"@ && "z-lock=back"@ != "close"@,
        "z-lock=back"@ != "transparent"@,
        "z-lock=front"@ != "minimise"@ && "z-lock=front"@ != "resize"@ && "z-lock=front"@ != "close"@,
        "z-lock=front"@ != "transparent"@ && "z-lock=front"@ != "z-lock=back"@,
        "size"@ != "min-size"@ && "size"@ != "max-size"@,
        "pos"@ != "min-size"@ && "pos"@ != "max-size"@ && "pos"@ != "size"@,
        "title"@ != "min-size"@ && "title"@ != "max-size"@ && "title"@ != "size"@ && "title"@ != "pos"@,
        "parent"@ != "min-size"@ && "parent"@ != "max-size"@ && "parent"@ != "size"@,
        "parent"@ != "pos"@ && "parent"@ != "title"@,
{
    reveal_strlit("minimise");
    reveal_strlit("resize");
    reveal_strlit("close");
    reveal_strlit("transparent");
    reveal_strlit("z-lock=back");
    reveal_strlit("z-lock=front");
    reveal_strlit("min-size");
    reveal_strlit("max-size");
    reveal_strlit("size");
    reveal_strlit("pos");
    reveal_strlit("title");
    reveal_strlit("parent");
    assert("minimise"@.len() == 8);
    assert("resize"@.len() == 6);
    assert("close"@.len() == 5);
    assert("transparent"@.len() == 11);
    assert("z-lock=back"@.len() == 11);
    assert("z-lock=front"@.len() == 12);
    assert("min-size"@[1] != "max-size"@[1]);
    assert("z-lock=back"@[0] != "transparent"@[0]);
}

/// `key=A,B`: which pieces a coordinate token splits into and what they read as.
proof fn lemma_coord_value(a: i32, b: i32)
    ensures
        coord_of(decimal(a as int) + seq![','] + decimal(b as int)) == (a, b),
        free_of(decimal(a as int) + seq![','] + decimal(b as int), '='),
        free_of(decimal(a as int) + seq![','] + decimal(b as int), '&'),
{
    lemma_decimal(a as int);
    lemma_decimal(b as int);
    lemma_split_concat(decimal(a as int), decimal(b as int), ',');
    lemma_split_free(decimal(a as int), ',');
    lemma_split_free(decimal(b as int), ',');
    let v = decimal(a as int) + seq![','] + decimal(b as int);
    assert(split(v, ',') =~= seq![decimal(a as int), decimal(b as int)]);
    assert forall|i: int| 0 <= i < v.len() implies v[i] != '=' && v[i] != '&' by {
        if i < decimal(a as int).len() {
            assert(v[i] == decimal(a as int)[i]);
        } else if i > decimal(a as int).len() {
            assert(v[i] == decimal(b as int)[i - decimal(a as int).len() - 1]);
        }
    }
}

proof fn lemma_free_concat(a: Seq<char>, b: Seq<char>, c: char)
    requires
        free_of(a, c),
        free_of(b, c),
    ensures
        free_of(a + b, c),
{
    assert forall|i: int| 0 <= i < (a + b).len() implies (a + b)[i] != c by {
        if i < a.len() {
            assert((a + b)[i] == a[i]);
        } else {
            assert((a + b)[i] == b[i - a.len()]);
        }
    }
}

proof fn lemma_apply_push(a: Seq<Seq<char>>, t: Seq<char>, prev: OptionsModel)
    requires
        apply_options(a) == Some(prev),
    ensures
        apply_options(a.push(t)) == apply_option(prev, t),
{
    assert(a.push(t).drop_last() =~= a);
}

/// Applying the canonical coordinate and title tokens to the defaults.
#[verifier::rlimit(100)]
proof fn lemma_head_tokens(o: OptionsModel)
    requires
        o.wf(),
        free_of(o.title, '='),
    ensures
        apply_options(option_tokens(o).subrange(0, 5)) == Some(
            OptionsModel { min_size: o.min_size, max_size: o.max_size, size: o.size, pos: o.pos, title: o.title, ..default_options() },
        ),
{
    lemma_keys();
    let d = default_options();
    let (mn, mx, sz) = (o.min_size, o.max_size, o.size);
    let v1 = decimal(mn.width as int) + seq![','] + decimal(mn.height as int);
    let v2 = decimal(mx.width as int) + seq![','] + decimal(mx.height as int);
    let v3 = decimal(sz.width as int) + seq![','] + decimal(sz.height as int);
    let v4 = decimal(o.pos.x as int) + seq![','] + decimal(o.pos.y as int);
    lemma_coord_value(mn.width, mn.height);
    lemma_coord_value(mx.width, mx.height);
    lemma_coord_value(sz.width, sz.height);
    lemma_coord_value(o.pos.x, o.pos.y);
    lemma_key_value("min-size"@, v1);
    lemma_key_value("max-size"@, v2);
    lemma_key_value("size"@, v3);
    lemma_key_value("pos"@, v4);
    lemma_key_value("title"@, o.title);
    let t = option_tokens(o);
    let a0: Seq<Seq<char>> = seq![];
    let a1 = a0.push(t[0]);
    let a2 = a1.push(t[1]);
    let a3 = a2.push(t[2]);
    let a4 = a3.push(t[3]);
    let a5 = a4.push(t[4]);
    let o1 = OptionsModel { min_size: mn, ..d };
    let o2 = OptionsModel { max_size: mx, ..o1 };
    let o3 = OptionsModel { size: sz, ..o2 };
    let o4 = OptionsModel { pos: o.pos, ..o3 };
    let o5 = OptionsModel { title: o.title, ..o4 };
    lemma_apply_push(a0, t[0], d);
    assert(apply_option(d, t[0]) == Some(o1));
    lemma_apply_push(a1, t[1], o1);
    assert(apply_option(o1, t[1]) == Some(o2));
    lemma_apply_push(a2, t[2], o2);
    assert(apply_option(o2, t[2]) == Some(o3));
    lemma_apply_push(a3, t[3], o3);
    assert(apply_option(o3, t[3]) == Some(o4));
    lemma_apply_push(a4, t[4], o4);
    assert(apply_option(o4, t[4]) == Some(o5));
    assert(a5 =~= t.subrange(0, 5));
}

/// Reading the canonical option string of any well-formed options gives those options
/// back, provided the title holds neither `&` nor `=`.
#[verifier::rlimit(100)]
pub proof fn lemma_options_round_trip(o: OptionsModel)
    requires
        o.wf(),
        free_of(o.title, '&'),
        free_of(o.title, '='),
    ensures
        options_of(canonical_options(o)) == Some(o),
{
    lemma_keys();
    lemma_head_tokens(o);
    let eq: Seq<char> = seq!['='];
    let t = option_tokens(o);
    let head = t.subrange(0, 5);
    let o5 = OptionsModel { min_size: o.min_size, max_size: o.max_size, size: o.size, pos: o.pos, title: o.title, ..default_options() };
    let (a6, o6) = match o.parent {
        Some(p) => {
            let v = decimal(p as int);
            lemma_decimal(p as int);
            lemma_key_value("parent"@, v);
            assert(int_of(v) == Some(p as int));
            assert(usize_of(v) == Some(p));
            let o6 = OptionsModel { parent: Some(p), ..o5 };
            lemma_apply_push(head, "parent"@ + eq + v, o5);
            (head.push("parent"@ + eq + v), o6)
        },
        None => (head, o5),
    };
    assert(apply_options(a6) == Some(o6));
    let a7 = with_flag(a6, o.can_minimise, "minimise"@);
    let o7 = OptionsModel { can_minimise: o.can_minimise, ..o6 };
    lemma_apply_push(a6, "minimise"@, o6);
    let a8 = with_flag(a7, o.can_resize, "resize"@);
    let o8 = OptionsModel { can_resize: o.can_resize, ..o7 };
    lemma_apply_push(a7, "resize"@, o7);
    let a9 = with_flag(a8, o.can_close, "close"@);
    let o9 = OptionsModel { can_close: o.can_close, ..o8 };
    lemma_apply_push(a8, "close"@, o8);
    let a10 = with_flag(a9, o.transparent, "transparent"@);
    let o10 = OptionsModel { transparent: o.transparent, ..o9 };
    lemma_apply_push(a9, "transparent"@, o9);
    lemma_apply_push(a10, "z-lock=back"@, o10);
    lemma_apply_push(a10, "z-lock=front"@, o10);
    assert(t.subrange(0, 5) =~= seq![t[0], t[1], t[2], t[3], t[4]]);
    assert(t == match o.z_lock {
        ZIndex::Back => a10.push("z-lock=back"@),
        ZIndex::Front => a10.push("z-lock=front"@),
        ZIndex::Automatic => a10,
    });
    assert(apply_options(t) == Some(o));
    assert(finish_options(o) == o);
    assert forall|i: int| 0 <= i < t.len() implies free_of(#[trigger] t[i], '&') by {
        let v1 = decimal(o.min_size.width as int) + seq![','] + decimal(o.min_size.height as int);
        let v2 = decimal(o.max_size.width as int) + seq![','] + decimal(o.max_size.height as int);
        let v3 = decimal(o.size.width as int) + seq![','] + decimal(o.size.height as int);
        let v4 = decimal(o.pos.x as int) + seq![','] + decimal(o.pos.y as int);
        lemma_coord_value(o.min_size.width, o.min_size.height);
        lemma_coord_value(o.max_size.width, o.max_size.height);
        lemma_coord_value(o.size.width, o.size.height);
        lemma_coord_value(o.pos.x, o.pos.y);
        assert(free_of(eq, '&'));
        lemma_free_concat("min-size"@, eq, '&');
        lemma_free_concat("min-size"@ + eq, v1, '&');
        lemma_free_concat("max-size"@, eq, '&');
        lemma_free_concat("max-size"@ + eq, v2, '&');
        lemma_free_concat("size"@, eq, '&');
        lemma_free_concat("size"@ + eq, v3, '&');
        lemma_free_concat("pos"@, eq, '&');
        lemma_free_concat("pos"@ + eq, v4, '&');
        lemma_free_concat("title"@, eq, '&');
        lemma_free_concat("title"@ + eq, o.title, '&');
        if let Some(p) = o.parent {
            lemma_decimal(p as int);
            lemma_free_concat("parent"@, eq, '&');
            lemma_free_concat("parent"@ + eq, decimal(p as int), '&');
        }
    }
    lemma_split_join(t, '&');
}

} // verus!
