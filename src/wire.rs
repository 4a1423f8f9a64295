use vstd::prelude::*;

use crate::geometry::Rect;
use crate::protocol::{
    FrameEventModel, FrameEvents, FrameFlags, FrameRequestModel, FrameRequests, Input,
    InputModel, MouseButton, ZIndex, FRAME_FLAGS_LIMIT, MOUSE_BUTTON_LIMIT,
};

verus! {

/// Big-endian bytes of a 16-bit value.
pub open spec fn be16(v: u16) -> Seq<u8> {
    seq![(v >> 8u16) as u8, v as u8]
}

/// Big-endian bytes of a 32-bit value.
pub open spec fn be32(v: u32) -> Seq<u8> {
    seq![(v >> 24u32) as u8, (v >> 16u32) as u8, (v >> 8u32) as u8, v as u8]
}

/// Big-endian bytes of a 64-bit value.
pub open spec fn be64(v: u64) -> Seq<u8> {
    seq![
        (v >> 56u64) as u8,
        (v >> 48u64) as u8,
        (v >> 40u64) as u8,
        (v >> 32u64) as u8,
        (v >> 24u64) as u8,
        (v >> 16u64) as u8,
        (v >> 8u64) as u8,
        v as u8,
    ]
}

/// The 16-bit value stored big-endian at `b[i..i + 2]`.
pub open spec fn u16_at(b: Seq<u8>, i: int) -> u16 {
    ((b[i] as u16) << 8u16) | (b[i + 1] as u16)
}

/// The 32-bit value stored big-endian at `b[i..i + 4]`.
pub open spec fn u32_at(b: Seq<u8>, i: int) -> u32 {
    ((b[i] as u32) << 24u32) | ((b[i + 1] as u32) << 16u32) | ((b[i + 2] as u32) << 8u32) | (b[
        i + 3
    ] as u32)
}

/// The 64-bit value stored big-endian at `b[i..i + 8]`.
pub open spec fn u64_at(b: Seq<u8>, i: int) -> u64 {
    ((u32_at(b, i) as u64) << 32u64) | (u32_at(b, i + 4) as u64)
}

pub open spec fn bool_byte(v: bool) -> u8 {
    if v { 1 } else { 0 }
}

pub open spec fn rect_bytes(r: Rect) -> Seq<u8> {
    be32(r.x as u32) + be32(r.y as u32) + be32(r.w) + be32(r.h)
}

/// The rectangle stored at `b[i..i + 16]`.
pub open spec fn rect_at(b: Seq<u8>, i: int) -> Rect {
    Rect {
        x: u32_at(b, i) as i32,
        y: u32_at(b, i + 4) as i32,
        w: u32_at(b, i + 8),
        h: u32_at(b, i + 12),
    }
}

pub open spec fn zindex_byte(z: ZIndex) -> u8 {
    match z {
        ZIndex::Automatic => 0,
        ZIndex::Back => 0x88,
        ZIndex::Front => 0xff,
    }
}

/// Low bytes mean automatic, middle bytes back, high bytes front.
pub open spec fn zindex_of(b: u8) -> ZIndex {
    if b <= 85 {
        ZIndex::Automatic
    } else if b <= 170 {
        ZIndex::Back
    } else {
        ZIndex::Front
    }
}

/// The key codes of `k`, each as two big-endian bytes.
pub open spec fn keys_bytes(k: Seq<u16>) -> Seq<u8>
    decreases k.len(),
{
    if k.len() == 0 {
        seq![]
    } else {
        keys_bytes(k.drop_last()) + be16(k.last())
    }
}

pub const INPUT_MOUSE_MOVE: u8 = 0;
pub const INPUT_MOUSE_BUTTON: u8 = 1;
pub const INPUT_SCROLL: u8 = 2;
pub const INPUT_KEY: u8 = 3;

/// The largest number of held keys an `Input::Key` can carry on the wire.
pub const MAX_KEYS: usize = 0xffff;

pub open spec fn input_encodable(i: InputModel) -> bool {
    match i {
        InputModel::MouseButtonE(b) => b < MOUSE_BUTTON_LIMIT,
        InputModel::Key(k) => k.len() <= MAX_KEYS,
        _ => true,
    }
}

pub open spec fn input_bytes(i: InputModel) -> Seq<u8> {
    match i {
        InputModel::MouseMove(x, y) => seq![INPUT_MOUSE_MOVE] + be32(x as u32) + be32(y as u32),
        InputModel::MouseButtonE(b) => seq![INPUT_MOUSE_BUTTON, b],
        InputModel::Scroll(dx, dy) => seq![INPUT_SCROLL] + be64(dx) + be64(dy),
        InputModel::Key(k) => seq![INPUT_KEY] + be16(k.len() as u16) + keys_bytes(k),
    }
}

pub open spec fn input_of(b: Seq<u8>) -> Option<InputModel> {
    if b.len() == 0 {
        None
    } else if b[0] == INPUT_MOUSE_MOVE {
        if b.len() >= 9 {
            Some(InputModel::MouseMove(u32_at(b, 1) as i32, u32_at(b, 5) as i32))
        } else {
            None
        }
    } else if b[0] == INPUT_MOUSE_BUTTON {
        if b.len() >= 2 && b[1] < MOUSE_BUTTON_LIMIT {
            Some(InputModel::MouseButtonE(b[1]))
        } else {
            None
        }
    } else if b[0] == INPUT_SCROLL {
        if b.len() >= 17 {
            Some(InputModel::Scroll(u64_at(b, 1), u64_at(b, 9)))
        } else {
            None
        }
    } else if b[0] == INPUT_KEY {
        if b.len() >= 3 && b.len() >= 3 + 2 * u16_at(b, 1) {
            Some(InputModel::Key(Seq::new(u16_at(b, 1) as nat, |i: int| u16_at(b, 3 + 2 * i))))
        } else {
            None
        }
    } else {
        None
    }
}

pub open spec fn event_encodable(e: FrameEventModel) -> bool {
    match e {
        FrameEventModel::Input(i) => input_encodable(i),
        FrameEventModel::Flags(f) => f < FRAME_FLAGS_LIMIT,
        _ => true,
    }
}

/// The wire form of an event: a tag byte, then the payload.
pub open spec fn event_bytes(e: FrameEventModel) -> Seq<u8> {
    match e {
        FrameEventModel::Position(r) => seq![0u8] + rect_bytes(r),
        FrameEventModel::Visible(v) => seq![1u8, bool_byte(v)],
        FrameEventModel::Input(i) => seq![2u8] + input_bytes(i),
        FrameEventModel::Redraw => seq![3u8],
        FrameEventModel::Close => seq![4u8],
        FrameEventModel::Flags(f) => seq![5u8] + be64(f),
    }
}

/// The event that the bytes `b` stand for, if any; bytes past the payload are ignored.
pub open spec fn event_of(b: Seq<u8>) -> Option<FrameEventModel> {
    if b.len() == 0 {
        None
    } else if b[0] == 0 {
        if b.len() >= 17 {
            Some(FrameEventModel::Position(rect_at(b, 1)))
        } else {
            None
        }
    } else if b[0] == 1 {
        if b.len() >= 2 {
            Some(FrameEventModel::Visible(b[1] > 0))
        } else {
            None
        }
    } else if b[0] == 2 {
        match input_of(b.subrange(1, b.len() as int)) {
            Some(i) => Some(FrameEventModel::Input(i)),
            None => None,
        }
    } else if b[0] == 3 {
        Some(FrameEventModel::Redraw)
    } else if b[0] == 4 {
        Some(FrameEventModel::Close)
    } else if b[0] == 5 {
        if b.len() >= 9 && u64_at(b, 1) < FRAME_FLAGS_LIMIT {
            Some(FrameEventModel::Flags(u64_at(b, 1)))
        } else {
            None
        }
    } else {
        None
    }
}

pub open spec fn request_encodable(r: FrameRequestModel) -> bool {
    match r {
        FrameRequestModel::Flags(f) => f < FRAME_FLAGS_LIMIT,
        _ => true,
    }
}

/// The wire form of a request: a tag byte, then the payload.
pub open spec fn request_bytes(r: FrameRequestModel) -> Seq<u8> {
    match r {
        FrameRequestModel::Position(rect) => seq![0u8] + rect_bytes(rect),
        FrameRequestModel::Fullscreen(v) => seq![1u8, bool_byte(v)],
        FrameRequestModel::Flags(f) => seq![2u8] + be64(f),
        FrameRequestModel::Minimise(v) => seq![3u8, bool_byte(v)],
        FrameRequestModel::ZLock(z) => seq![4u8, zindex_byte(z)],
        FrameRequestModel::Close => seq![5u8],
    }
}

/// The request that the bytes `b` stand for, if any; bytes past the payload are ignored.
pub open spec fn request_of(b: Seq<u8>) -> Option<FrameRequestModel> {
    if b.len() == 0 {
        None
    } else if b[0] == 0 {
        if b.len() >= 17 {
            Some(FrameRequestModel::Position(rect_at(b, 1)))
        } else {
            None
        }
    } else if b[0] == 1 {
        if b.len() >= 2 {
            Some(FrameRequestModel::Fullscreen(b[1] > 0))
        } else {
            None
        }
    } else if b[0] == 2 {
        if b.len() >= 9 && u64_at(b, 1) < FRAME_FLAGS_LIMIT {
            Some(FrameRequestModel::Flags(u64_at(b, 1)))
        } else {
            None
        }
    } else if b[0] == 3 {
        if b.len() >= 2 {
            Some(FrameRequestModel::Minimise(b[1] > 0))
        } else {
            None
        }
    } else if b[0] == 4 {
        if b.len() >= 2 {
            Some(FrameRequestModel::ZLock(zindex_of(b[1])))
        } else {
            None
        }
    } else if b[0] == 5 {
        Some(FrameRequestModel::Close)
    } else {
        None
    }
}

/// A value with a byte encoding on the client connection.
pub trait Serialise: Sized + View {
    /// The values that have an encoding.
    spec fn encodable(v: Self::V) -> bool;

    /// The encoding of an encodable value.
    spec fn encoding(v: Self::V) -> Seq<u8>;

    /// The value a byte string decodes to, if any.
    spec fn decoding(b: Seq<u8>) -> Option<Self::V>;

    fn from_bytes(byte_buffer: &[u8]) -> (r: Result<Self, String>)
        ensures
            r is Ok <==> Self::decoding(byte_buffer@) is Some,
            r is Ok ==> Self::decoding(byte_buffer@) == Some(r->Ok_0@),
    ;

    fn to_bytes(&self) -> (r: Result<Vec<u8>, String>)
        ensures
            r is Ok <==> Self::encodable(self@),
            r is Ok ==> r->Ok_0@ == Self::encoding(self@),
    ;
}

/// The four bytes of `slice` starting at `at`, as an array.
pub fn make_array(slice: &[u8], at: usize) -> (r: [u8; 4])
    requires
        at + 4 <= slice@.len(),
    ensures
        r@ == slice@.subrange(at as int, at + 4),
{
    let r = [slice[at], slice[at + 1], slice[at + 2], slice[at + 3]];
    assert(r@ =~= slice@.subrange(at as int, at + 4));
    r
}

/// `vec` followed by `values`.
pub fn concat(vec: Vec<u8>, values: Vec<u8>) -> (r: Vec<u8>)
    ensures
        r@ == vec@ + values@,
{
    let mut vec = vec;
    let mut values = values;
    vec.append(&mut values);
    vec
}

fn read_u16(b: &[u8], at: usize) -> (r: u16)
    requires
        at + 2 <= b@.len(),
        b@.len() <= usize::MAX,
    ensures
        r == u16_at(b@, at as int),
{
    ((b[at] as u16) << 8u16) | (b[at + 1] as u16)
}

fn read_u32(b: &[u8], at: usize) -> (r: u32)
    requires
        at + 4 <= b@.len(),
        b@.len() <= usize::MAX,
    ensures
        r == u32_at(b@, at as int),
{
    let a = make_array(b, at);
    ((a[0] as u32) << 24u32) | ((a[1] as u32) << 16u32) | ((a[2] as u32) << 8u32) | (a[3] as u32)
}

fn read_u64(b: &[u8], at: usize) -> (r: u64)
    requires
        at + 8 <= b@.len(),
        b@.len() <= usize::MAX,
    ensures
        r == u64_at(b@, at as int),
{
    ((read_u32(b, at) as u64) << 32u64) | (read_u32(b, at + 4) as u64)
}

fn read_rect(b: &[u8], at: usize) -> (r: Rect)
    requires
        at + 16 <= b@.len(),
        b@.len() <= usize::MAX,
    ensures
        r == rect_at(b@, at as int),
{
    Rect {
        x: #[verifier::truncate] (read_u32(b, at) as i32),
        y: #[verifier::truncate] (read_u32(b, at + 4) as i32),
        w: read_u32(b, at + 8),
        h: read_u32(b, at + 12),
    }
}

fn push_u16(v: &mut Vec<u8>, x: u16)
    ensures
        final(v)@ == old(v)@ + be16(x),
{
    v.push((x >> 8u16) as u8);
    v.push(x as u8);
    assert(final(v)@ =~= old(v)@ + be16(x));
}

fn push_u32(v: &mut Vec<u8>, x: u32)
    ensures
        final(v)@ == old(v)@ + be32(x),
{
    v.push((x >> 24u32) as u8);
    v.push((x >> 16u32) as u8);
    v.push((x >> 8u32) as u8);
    v.push(x as u8);
    assert(final(v)@ =~= old(v)@ + be32(x));
}

fn push_u64(v: &mut Vec<u8>, x: u64)
    ensures
        final(v)@ == old(v)@ + be64(x),
{
    push_u32(v, (x >> 32u64) as u32);
    push_u32(v, x as u32);
    let ghost hi = (x >> 32u64) as u32;
    let ghost lo = x as u32;
    assert((hi >> 24u32) as u8 == (x >> 56u64) as u8) by (bit_vector)
        requires
            hi == (x >> 32u64) as u32,
    ;
    assert((hi >> 16u32) as u8 == (x >> 48u64) as u8) by (bit_vector)
        requires
            hi == (x >> 32u64) as u32,
    ;
    assert((hi >> 8u32) as u8 == (x >> 40u64) as u8) by (bit_vector)
        requires
            hi == (x >> 32u64) as u32,
    ;
    assert(hi as u8 == (x >> 32u64) as u8) by (bit_vector)
        requires
            hi == (x >> 32u64) as u32,
    ;
    assert((lo >> 24u32) as u8 == (x >> 24u64) as u8) by (bit_vector)
        requires
            lo == x as u32,
    ;
    assert((lo >> 16u32) as u8 == (x >> 16u64) as u8) by (bit_vector)
        requires
            lo == x as u32,
    ;
    assert((lo >> 8u32) as u8 == (x >> 8u64) as u8) by (bit_vector)
        requires
            lo == x as u32,
    ;
    assert(lo as u8 == x as u8) by (bit_vector)
        requires
            lo == x as u32,
    ;
    assert(final(v)@ =~= old(v)@ + be64(x));
}

fn push_rect(v: &mut Vec<u8>, r: Rect)
    ensures
        final(v)@ == old(v)@ + rect_bytes(r),
{
    push_u32(v, #[verifier::truncate] (r.x as u32));
    push_u32(v, #[verifier::truncate] (r.y as u32));
    push_u32(v, r.w);
    push_u32(v, r.h);
    assert(final(v)@ =~= old(v)@ + rect_bytes(r));
}

fn text(s: &str) -> (r: String)
    ensures
        r@ == s@,
{
    s.to_owned()
}

impl Serialise for u8 {
    open spec fn encodable(v: u8) -> bool {
        true
    }

    open spec fn encoding(v: u8) -> Seq<u8> {
        seq![v]
    }

    open spec fn decoding(b: Seq<u8>) -> Option<u8> {
        if b.len() >= 1 {
            Some(b[0])
        } else {
            None
        }
    }

    fn from_bytes(byte_buffer: &[u8]) -> (r: Result<u8, String>) {
        if byte_buffer.len() >= 1 {
            Ok(byte_buffer[0])
        } else {
            Err(text("No byte"))
        }
    }

    fn to_bytes(&self) -> (r: Result<Vec<u8>, String>) {
        let mut v = Vec::new();
        v.push(*self);
        assert(v@ =~= seq![*self]);
        Ok(v)
    }
}

impl Serialise for u32 {
    open spec fn encodable(v: u32) -> bool {
        true
    }

    open spec fn encoding(v: u32) -> Seq<u8> {
        be32(v)
    }

    open spec fn decoding(b: Seq<u8>) -> Option<u32> {
        if b.len() >= 4 {
            Some(u32_at(b, 0))
        } else {
            None
        }
    }

    fn from_bytes(byte_buffer: &[u8]) -> (r: Result<u32, String>) {
        if byte_buffer.len() >= 4 {
            Ok(read_u32(byte_buffer, 0))
        } else {
            Err(text("Expected four bytes"))
        }
    }

    fn to_bytes(&self) -> (r: Result<Vec<u8>, String>) {
        let mut v = Vec::new();
        push_u32(&mut v, *self);
        assert(v@ =~= be32(*self));
        Ok(v)
    }
}

impl Serialise for i32 {
    open spec fn encodable(v: i32) -> bool {
        true
    }

    open spec fn encoding(v: i32) -> Seq<u8> {
        be32(v as u32)
    }

    open spec fn decoding(b: Seq<u8>) -> Option<i32> {
        if b.len() >= 4 {
            Some(u32_at(b, 0) as i32)
        } else {
            None
        }
    }

    fn from_bytes(byte_buffer: &[u8]) -> (r: Result<i32, String>) {
        if byte_buffer.len() >= 4 {
            Ok(#[verifier::truncate] (read_u32(byte_buffer, 0) as i32))
        } else {
            Err(text("Expected four bytes"))
        }
    }

    fn to_bytes(&self) -> (r: Result<Vec<u8>, String>) {
        let mut v = Vec::new();
        push_u32(&mut v, #[verifier::truncate] (*self as u32));
        assert(v@ =~= be32(*self as u32));
        Ok(v)
    }
}

impl Serialise for u64 {
    open spec fn encodable(v: u64) -> bool {
        true
    }

    open spec fn encoding(v: u64) -> Seq<u8> {
        be64(v)
    }

    open spec fn decoding(b: Seq<u8>) -> Option<u64> {
        if b.len() >= 8 {
            Some(u64_at(b, 0))
        } else {
            None
        }
    }

    fn from_bytes(byte_buffer: &[u8]) -> (r: Result<u64, String>) {
        if byte_buffer.len() >= 8 {
            Ok(read_u64(byte_buffer, 0))
        } else {
            Err(text("Expected eight bytes"))
        }
    }

    fn to_bytes(&self) -> (r: Result<Vec<u8>, String>) {
        let mut v = Vec::new();
        push_u64(&mut v, *self);
        assert(v@ =~= be64(*self));
        Ok(v)
    }
}

impl View for ZIndex {
    type V = ZIndex;

    open spec fn view(&self) -> ZIndex {
        *self
    }
}

impl Serialise for ZIndex {
    open spec fn encodable(v: ZIndex) -> bool {
        true
    }

    open spec fn encoding(v: ZIndex) -> Seq<u8> {
        seq![zindex_byte(v)]
    }

    open spec fn decoding(b: Seq<u8>) -> Option<ZIndex> {
        if b.len() >= 1 {
            Some(zindex_of(b[0]))
        } else {
            None
        }
    }

    fn from_bytes(byte_buffer: &[u8]) -> (r: Result<ZIndex, String>) {
        if byte_buffer.len() >= 1 {
            Ok(zindex_from_byte(byte_buffer[0]))
        } else {
            Err(text("Expected one byte"))
        }
    }

    fn to_bytes(&self) -> (r: Result<Vec<u8>, String>) {
        let mut v = Vec::new();
        v.push(zindex_to_byte(*self));
        assert(v@ =~= seq![zindex_byte(*self)]);
        Ok(v)
    }
}

fn zindex_from_byte(b: u8) -> (r: ZIndex)
    ensures
        r == zindex_of(b),
{
    if b <= 85 {
        ZIndex::Automatic
    } else if b <= 170 {
        ZIndex::Back
    } else {
        ZIndex::Front
    }
}

fn zindex_to_byte(z: ZIndex) -> (r: u8)
    ensures
        r == zindex_byte(z),
{
    match z {
        ZIndex::Automatic => 0,
        ZIndex::Back => 0x88,
        ZIndex::Front => 0xff,
    }
}

fn bool_to_byte(v: bool) -> (r: u8)
    ensures
        r == bool_byte(v),
{
    if v {
        1
    } else {
        0
    }
}

fn read_input(b: &[u8], at: usize) -> (r: Option<Input>)
    requires
        at <= b@.len(),
    ensures
        r is Some <==> input_of(b@.subrange(at as int, b@.len() as int)) is Some,
        r is Some ==> input_of(b@.subrange(at as int, b@.len() as int)) == Some(r->Some_0@),
{
    let len = b.len();
    let ghost s = b@.subrange(at as int, b@.len() as int);
    if at == len {
        return None;
    }
    let tag = b[at];
    if tag == INPUT_MOUSE_MOVE {
        if len - at >= 9 {
            let x = #[verifier::truncate] (read_u32(b, at + 1) as i32);
            let y = #[verifier::truncate] (read_u32(b, at + 5) as i32);
            Some(Input::MouseMove(x, y))
        } else {
            None
        }
    } else if tag == INPUT_MOUSE_BUTTON {
        if len - at >= 2 {
            match MouseButton::from_bits(b[at + 1]) {
                Some(m) => Some(Input::MouseButtonE(m)),
                None => None,
            }
        } else {
            None
        }
    } else if tag == INPUT_SCROLL {
        if len - at >= 17 {
            Some(Input::Scroll(read_u64(b, at + 1), read_u64(b, at + 9)))
        } else {
            None
        }
    } else if tag == INPUT_KEY {
        if len - at >= 3 {
            let n = read_u16(b, at + 1) as usize;
            assert(n == u16_at(s, 1));
            if len - at - 3 >= 2 * n {
                let mut keys: Vec<u16> = Vec::new();
                let mut i: usize = 0;
                while i < n
                    invariant
                        i <= n,
                        at + 3 + 2 * n <= len,
                        len == b@.len(),
                        s == b@.subrange(at as int, b@.len() as int),
                        keys@.len() == i,
                        forall|j: int| 0 <= j < i ==> keys@[j] == u16_at(s, 3 + 2 * j),
                    decreases n - i,
                {
                    let k = read_u16(b, at + 3 + 2 * i);
                    assert(k == u16_at(s, 3 + 2 * i));
                    keys.push(k);
                    i += 1;
                }
                assert(keys@ =~= Seq::new(u16_at(s, 1) as nat, |j: int| u16_at(s, 3 + 2 * j)));
                Some(Input::Key(keys))
            } else {
                None
            }
        } else {
            None
        }
    } else {
        None
    }
}

fn push_keys(v: &mut Vec<u8>, k: &Vec<u16>)
    ensures
        final(v)@ == old(v)@ + keys_bytes(k@),
{
    let mut i: usize = 0;
    while i < k.len()
        invariant
            i <= k@.len(),
            v@ == old(v)@ + keys_bytes(k@.subrange(0, i as int)),
        decreases k@.len() - i,
    {
        push_u16(v, k[i]);
        assert(k@.subrange(0, i + 1).drop_last() =~= k@.subrange(0, i as int));
        assert(v@ =~= old(v)@ + keys_bytes(k@.subrange(0, i + 1)));
        i += 1;
    }
    assert(k@.subrange(0, k@.len() as int) =~= k@);
}

fn push_input(v: &mut Vec<u8>, i: &Input) -> (ok: bool)
    ensures
        ok == input_encodable(i@),
        ok ==> final(v)@ == old(v)@ + input_bytes(i@),
{
    match i {
        Input::MouseMove(x, y) => {
            v.push(INPUT_MOUSE_MOVE);
            push_u32(v, #[verifier::truncate] (*x as u32));
            push_u32(v, #[verifier::truncate] (*y as u32));
            assert(v@ =~= old(v)@ + input_bytes(i@));
            true
        },
        Input::MouseButtonE(m) => {
            v.push(INPUT_MOUSE_BUTTON);
            v.push(m.bits());
            assert(v@ =~= old(v)@ + input_bytes(i@));
            true
        },
        Input::Scroll(dx, dy) => {
            v.push(INPUT_SCROLL);
            push_u64(v, *dx);
            push_u64(v, *dy);
            assert(v@ =~= old(v)@ + input_bytes(i@));
            true
        },
        Input::Key(k) => {
            if k.len() > MAX_KEYS {
                return false;
            }
            v.push(INPUT_KEY);
            push_u16(v, k.len() as u16);
            push_keys(v, k);
            assert(v@ =~= old(v)@ + input_bytes(i@));
            true
        },
    }
}

impl Serialise for Input {
    open spec fn encodable(v: InputModel) -> bool {
        input_encodable(v)
    }

    open spec fn encoding(v: InputModel) -> Seq<u8> {
        input_bytes(v)
    }

    open spec fn decoding(b: Seq<u8>) -> Option<InputModel> {
        input_of(b)
    }

    fn from_bytes(byte_buffer: &[u8]) -> (r: Result<Input, String>) {
        assert(byte_buffer@.subrange(0, byte_buffer@.len() as int) =~= byte_buffer@);
        match read_input(byte_buffer, 0) {
            Some(i) => Ok(i),
            None => Err(text("Malformed input")),
        }
    }

    fn to_bytes(&self) -> (r: Result<Vec<u8>, String>) {
        let mut v = Vec::new();
        if push_input(&mut v, self) {
            assert(v@ =~= input_bytes(self@));
            Ok(v)
        } else {
            Err(text("Too many keys held"))
        }
    }
}

impl Serialise for FrameEvents {
    open spec fn encodable(v: FrameEventModel) -> bool {
        event_encodable(v)
    }

    open spec fn encoding(v: FrameEventModel) -> Seq<u8> {
        event_bytes(v)
    }

    open spec fn decoding(b: Seq<u8>) -> Option<FrameEventModel> {
        event_of(b)
    }

    fn from_bytes(byte_buffer: &[u8]) -> (r: Result<FrameEvents, String>) {
        let len = byte_buffer.len();
        if len == 0 {
            return Err(text("Expected a non-empty message"));
        }
        let tag = byte_buffer[0];
        if tag == 0 {
            if len >= 17 {
                Ok(FrameEvents::Position(read_rect(byte_buffer, 1)))
            } else {
                Err(text("Position(i32, i32, u32, u32)"))
            }
        } else if tag == 1 {
            if len >= 2 {
                Ok(FrameEvents::Visible(byte_buffer[1] > 0))
            } else {
                Err(text("Visible(bool)"))
            }
        } else if tag == 2 {
            match read_input(byte_buffer, 1) {
                Some(i) => Ok(FrameEvents::Input(i)),
                None => Err(text("Malformed input")),
            }
        } else if tag == 3 {
            Ok(FrameEvents::Redraw)
        } else if tag == 4 {
            Ok(FrameEvents::Close)
        } else if tag == 5 {
            if len >= 9 {
                match FrameFlags::from_bits(read_u64(byte_buffer, 1)) {
                    Some(f) => Ok(FrameEvents::Flags(f)),
                    None => Err(text("Failed to parse flag list")),
                }
            } else {
                Err(text("Flags(FrameFlags)"))
            }
        } else {
            Err(text("No such event"))
        }
    }

    fn to_bytes(&self) -> (r: Result<Vec<u8>, String>) {
        let mut v = Vec::new();
        match self {
            FrameEvents::Position(rect) => {
                v.push(0u8);
                push_rect(&mut v, *rect);
            },
            FrameEvents::Visible(b) => {
                v.push(1u8);
                v.push(bool_to_byte(*b));
            },
            FrameEvents::Input(i) => {
                v.push(2u8);
                if !push_input(&mut v, i) {
                    return Err(text("Too many keys held"));
                }
            },
            FrameEvents::Redraw => {
                v.push(3u8);
            },
            FrameEvents::Close => {
                v.push(4u8);
            },
            FrameEvents::Flags(f) => {
                v.push(5u8);
                push_u64(&mut v, f.bits());
            },
        }
        assert(v@ =~= event_bytes(self@));
        Ok(v)
    }
}

impl Serialise for FrameRequests {
    open spec fn encodable(v: FrameRequestModel) -> bool {
        request_encodable(v)
    }

    open spec fn encoding(v: FrameRequestModel) -> Seq<u8> {
        request_bytes(v)
    }

    open spec fn decoding(b: Seq<u8>) -> Option<FrameRequestModel> {
        request_of(b)
    }

    fn from_bytes(byte_buffer: &[u8]) -> (r: Result<FrameRequests, String>) {
        let len = byte_buffer.len();
        if len == 0 {
            return Err(text("Expected a non-empty message"));
        }
        let tag = byte_buffer[0];
        if tag == 0 {
            if len >= 17 {
                Ok(FrameRequests::Position(read_rect(byte_buffer, 1)))
            } else {
                Err(text("Position(i32, i32, u32, u32)"))
            }
        } else if tag == 1 {
            if len >= 2 {
                Ok(FrameRequests::Fullscreen(byte_buffer[1] > 0))
            } else {
                Err(text("Fullscreen(bool)"))
            }
        } else if tag == 2 {
            if len >= 9 {
                match FrameFlags::from_bits(read_u64(byte_buffer, 1)) {
                    Some(f) => Ok(FrameRequests::Flags(f)),
                    None => Err(text("Failed to parse flag list")),
                }
            } else {
                Err(text("Flags(FrameFlags)"))
            }
        } else if tag == 3 {
            if len >= 2 {
                Ok(FrameRequests::Minimise(byte_buffer[1] > 0))
            } else {
                Err(text("Minimise(bool)"))
            }
        } else if tag == 4 {
            if len >= 2 {
                Ok(FrameRequests::ZLock(zindex_from_byte(byte_buffer[1])))
            } else {
                Err(text("ZLock(ZIndex)"))
            }
        } else if tag == 5 {
            Ok(FrameRequests::Close)
        } else {
            Err(text("No such request"))
        }
    }

    fn to_bytes(&self) -> (r: Result<Vec<u8>, String>) {
        let mut v = Vec::new();
        match self {
            FrameRequests::Position(rect) => {
                v.push(0u8);
                push_rect(&mut v, *rect);
            },
            FrameRequests::Fullscreen(b) => {
                v.push(1u8);
                v.push(bool_to_byte(*b));
            },
            FrameRequests::Flags(f) => {
                v.push(2u8);
                push_u64(&mut v, f.bits());
            },
            FrameRequests::Minimise(b) => {
                v.push(3u8);
                v.push(bool_to_byte(*b));
            },
            FrameRequests::ZLock(z) => {
                v.push(4u8);
                v.push(zindex_to_byte(*z));
            },
            FrameRequests::Close => {
                v.push(5u8);
            },
        }
        assert(v@ =~= request_bytes(self@));
        Ok(v)
    }
}

proof fn lemma_be16(v: u16)
    ensures
        (((v >> 8u16) as u8 as u16) << 8u16) | (v as u8 as u16) == v,
{
    assert((((v >> 8u16) as u8 as u16) << 8u16) | (v as u8 as u16) == v) by (bit_vector);
}

proof fn lemma_be32(v: u32)
    ensures
        (((v >> 24u32) as u8 as u32) << 24u32) | (((v >> 16u32) as u8 as u32) << 16u32) | (((v
            >> 8u32) as u8 as u32) << 8u32) | (v as u8 as u32) == v,
{
    assert((((v >> 24u32) as u8 as u32) << 24u32) | (((v >> 16u32) as u8 as u32) << 16u32) | (((v
        >> 8u32) as u8 as u32) << 8u32) | (v as u8 as u32) == v) by (bit_vector);
}

proof fn lemma_i32_as_u32(v: i32)
    ensures
        (v as u32) as i32 == v,
{
    assert((v as u32) as i32 == v) by (bit_vector);
}

/// Reading 2 bytes where `be16(v)` was written gives `v` back.
proof fn lemma_u16_at(a: Seq<u8>, v: u16, c: Seq<u8>)
    ensures
        u16_at(a + be16(v) + c, a.len() as int) == v,
{
    let b = a + be16(v) + c;
    assert(b[a.len() as int] == (v >> 8u16) as u8);
    assert(b[a.len() as int + 1] == v as u8);
    lemma_be16(v);
}

/// Reading 4 bytes where `be32(v)` was written gives `v` back.
proof fn lemma_u32_at(a: Seq<u8>, v: u32, c: Seq<u8>)
    ensures
        u32_at(a + be32(v) + c, a.len() as int) == v,
{
    let b = a + be32(v) + c;
    assert(b[a.len() as int] == (v >> 24u32) as u8);
    assert(b[a.len() as int + 1] == (v >> 16u32) as u8);
    assert(b[a.len() as int + 2] == (v >> 8u32) as u8);
    assert(b[a.len() as int + 3] == v as u8);
    lemma_be32(v);
}

/// Reading 8 bytes where `be64(v)` was written gives `v` back.
proof fn lemma_u64_at(a: Seq<u8>, v: u64, c: Seq<u8>)
    ensures
        u64_at(a + be64(v) + c, a.len() as int) == v,
{
    let hi = (v >> 32u64) as u32;
    let lo = v as u32;
    assert(be64(v) =~= be32(hi) + be32(lo)) by {
        assert((hi >> 24u32) as u8 == (v >> 56u64) as u8) by (bit_vector)
            requires
                hi == (v >> 32u64) as u32,
        ;
        assert((hi >> 16u32) as u8 == (v >> 48u64) as u8) by (bit_vector)
            requires
                hi == (v >> 32u64) as u32,
        ;
        assert((hi >> 8u32) as u8 == (v >> 40u64) as u8) by (bit_vector)
            requires
                hi == (v >> 32u64) as u32,
        ;
        assert(hi as u8 == (v >> 32u64) as u8) by (bit_vector)
            requires
                hi == (v >> 32u64) as u32,
        ;
        assert((lo >> 24u32) as u8 == (v >> 24u64) as u8) by (bit_vector)
            requires
                lo == v as u32,
        ;
        assert((lo >> 16u32) as u8 == (v >> 16u64) as u8) by (bit_vector)
            requires
                lo == v as u32,
        ;
        assert((lo >> 8u32) as u8 == (v >> 8u64) as u8) by (bit_vector)
            requires
                lo == v as u32,
        ;
        assert(lo as u8 == v as u8) by (bit_vector)
            requires
                lo == v as u32,
        ;
    }
    let b = a + be64(v) + c;
    assert(b =~= a + be32(hi) + (be32(lo) + c));
    assert(b =~= (a + be32(hi)) + be32(lo) + c);
    lemma_u32_at(a, hi, be32(lo) + c);
    lemma_u32_at(a + be32(hi), lo, c);
    assert(((hi as u64) << 32u64) | (lo as u64) == v) by (bit_vector)
        requires
            hi == (v >> 32u64) as u32,
            lo == v as u32,
    ;
}

proof fn lemma_rect_at(a: Seq<u8>, r: Rect, c: Seq<u8>)
    ensures
        rect_at(a + rect_bytes(r) + c, a.len() as int) == r,
{
    let b = a + rect_bytes(r) + c;
    let x = r.x as u32;
    let y = r.y as u32;
    assert(b =~= a + be32(x) + (be32(y) + be32(r.w) + be32(r.h) + c));
    lemma_u32_at(a, x, be32(y) + be32(r.w) + be32(r.h) + c);
    assert(b =~= (a + be32(x)) + be32(y) + (be32(r.w) + be32(r.h) + c));
    lemma_u32_at(a + be32(x), y, be32(r.w) + be32(r.h) + c);
    assert(b =~= (a + be32(x) + be32(y)) + be32(r.w) + (be32(r.h) + c));
    lemma_u32_at(a + be32(x) + be32(y), r.w, be32(r.h) + c);
    assert(b =~= (a + be32(x) + be32(y) + be32(r.w)) + be32(r.h) + c);
    lemma_u32_at(a + be32(x) + be32(y) + be32(r.w), r.h, c);
    lemma_i32_as_u32(r.x);
    lemma_i32_as_u32(r.y);
}

proof fn lemma_keys_bytes(k: Seq<u16>)
    ensures
        keys_bytes(k).len() == 2 * k.len(),
        forall|i: int|
            0 <= i < k.len() ==> #[trigger] u16_at(keys_bytes(k), 2 * i) == k[i],
    decreases k.len(),
{
    if k.len() > 0 {
        let p = k.drop_last();
        lemma_keys_bytes(p);
        assert forall|i: int| 0 <= i < k.len() implies #[trigger] u16_at(keys_bytes(k), 2 * i)
            == k[i] by {
            if i < p.len() {
                assert(keys_bytes(p)[2 * i] == keys_bytes(k)[2 * i]);
                assert(keys_bytes(p)[2 * i + 1] == keys_bytes(k)[2 * i + 1]);
                assert(u16_at(keys_bytes(p), 2 * i) == p[i]);
            } else {
                lemma_u16_at(keys_bytes(p), k.last(), seq![]);
                assert(keys_bytes(p) + be16(k.last()) + seq![] =~= keys_bytes(k));
            }
        }
    }
}

proof fn lemma_input_round_trip(i: InputModel)
    requires
        input_encodable(i),
    ensures
        input_of(input_bytes(i)) == Some(i),
{
    let b = input_bytes(i);
    match i {
        InputModel::MouseMove(x, y) => {
            assert(b =~= seq![INPUT_MOUSE_MOVE] + be32(x as u32) + be32(y as u32));
            lemma_u32_at(seq![INPUT_MOUSE_MOVE], x as u32, be32(y as u32));
            lemma_u32_at(seq![INPUT_MOUSE_MOVE] + be32(x as u32), y as u32, seq![]);
            assert(b =~= seq![INPUT_MOUSE_MOVE] + be32(x as u32) + be32(y as u32) + seq![]);
            lemma_i32_as_u32(x);
            lemma_i32_as_u32(y);
        },
        InputModel::MouseButtonE(m) => {},
        InputModel::Scroll(dx, dy) => {
            lemma_u64_at(seq![INPUT_SCROLL], dx, be64(dy));
            assert(b =~= seq![INPUT_SCROLL] + be64(dx) + be64(dy) + seq![]);
            lemma_u64_at(seq![INPUT_SCROLL] + be64(dx), dy, seq![]);
        },
        InputModel::Key(k) => {
            let n = k.len() as u16;
            lemma_u16_at(seq![INPUT_KEY], n, keys_bytes(k));
            lemma_keys_bytes(k);
            assert(n as nat == k.len());
            let kb = keys_bytes(k);
            assert forall|j: int| 0 <= j < k.len() implies u16_at(b, 3 + 2 * j) == k[j] by {
                assert(b[3 + 2 * j] == kb[2 * j]);
                assert(b[3 + 2 * j + 1] == kb[2 * j + 1]);
                assert(u16_at(kb, 2 * j) == k[j]);
            }
            assert(Seq::new(u16_at(b, 1) as nat, |j: int| u16_at(b, 3 + 2 * j)) =~= k);
        },
    }
}

/// Decoding the encoding of any encodable event gives that event back.
pub proof fn lemma_event_round_trip(e: FrameEventModel)
    requires
        event_encodable(e),
    ensures
        event_of(event_bytes(e)) == Some(e),
{
    let b = event_bytes(e);
    match e {
        FrameEventModel::Position(r) => {
            lemma_rect_at(seq![0u8], r, seq![]);
            assert(b =~= seq![0u8] + rect_bytes(r) + seq![]);
        },
        FrameEventModel::Input(i) => {
            lemma_input_round_trip(i);
            assert(b.subrange(1, b.len() as int) =~= input_bytes(i));
        },
        FrameEventModel::Flags(f) => {
            lemma_u64_at(seq![5u8], f, seq![]);
            assert(b =~= seq![5u8] + be64(f) + seq![]);
        },
        _ => {},
    }
}

/// Decoding the encoding of any encodable request gives that request back.
pub proof fn lemma_request_round_trip(r: FrameRequestModel)
    requires
        request_encodable(r),
    ensures
        request_of(request_bytes(r)) == Some(r),
{
    let b = request_bytes(r);
    match r {
        FrameRequestModel::Position(rect) => {
            lemma_rect_at(seq![0u8], rect, seq![]);
            assert(b =~= seq![0u8] + rect_bytes(rect) + seq![]);
        },
        FrameRequestModel::Flags(f) => {
            lemma_u64_at(seq![2u8], f, seq![]);
            assert(b =~= seq![2u8] + be64(f) + seq![]);
        },
        _ => {},
    }
}

} // verus!
