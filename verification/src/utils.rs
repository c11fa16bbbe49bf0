//! Utilities shared by the other modules: the compact length-prefixed encoding used by save files.

use vstd::prelude::*;
use vstd::arithmetic::power::pow;
use vstd::endian::{endianness, Endian};

verus! {

/// Number of bytes of a `usize` on this machine.
pub open spec fn usize_width() -> nat {
    vstd::layout::size_of::<usize>()
}

/// The `n` least significant base-256 digits of `x`, least significant first.
pub open spec fn le_digits(x: nat, n: nat) -> Seq<u8>
    decreases n,
{
    if n == 0 {
        Seq::empty()
    } else {
        seq![(x % 256) as u8] + le_digits(x / 256, (n - 1) as nat)
    }
}

/// The number whose base-256 digits are `s`, least significant first.
pub open spec fn le_value(s: Seq<u8>) -> nat
    decreases s.len(),
{
    if s.len() == 0 {
        0
    } else {
        s[0] as nat + 256 * le_value(s.drop_first())
    }
}

/// The memory representation of the `usize` value `x` in this machine's byte order.
pub open spec fn ne_bytes(x: nat) -> Seq<u8> {
    match endianness() {
        Endian::Little => le_digits(x, usize_width()),
        Endian::Big => le_digits(x, usize_width()).reverse(),
    }
}

/// The `usize` value whose memory representation in this machine's byte order is `s`.
pub open spec fn ne_value(s: Seq<u8>) -> nat {
    match endianness() {
        Endian::Little => le_value(s),
        Endian::Big => le_value(s.reverse()),
    }
}

/// The length prefix read from the first `usize_width()` bytes of `s`.
pub open spec fn prefix_at(s: Seq<u8>, pos: int) -> nat {
    ne_value(s.subrange(pos, pos + usize_width()))
}

/// `data` preceded by its length.
pub open spec fn spec_prefix_len(data: Seq<u8>) -> Seq<u8> {
    ne_bytes(data.len()) + data
}

/// A type name and its data, each preceded by its length.
pub open spec fn spec_typename_data(ty_name: Seq<u8>, data: Seq<u8>) -> Seq<u8> {
    spec_prefix_len(ty_name) + spec_prefix_len(data)
}

/// The range `(start, end)` of the block whose length prefix starts at `pos`.
pub open spec fn spec_block_range(buf: Seq<u8>, pos: int) -> (int, int) {
    (pos + usize_width(), pos + usize_width() + prefix_at(buf, pos))
}

/// The ranges of the name and of the data of a type-name record starting at `pos`.
pub open spec fn spec_get_typename_data(buf: Seq<u8>, pos: int) -> ((int, int), (int, int)) {
    let name = spec_block_range(buf, pos);
    (name, spec_block_range(buf, name.1))
}

/// A type-name record can be located at `pos`: both length prefixes lie in `buf` and the
/// positions it yields fit in a `usize`.
pub open spec fn typename_record_readable(buf: Seq<u8>, pos: int) -> bool {
    let r = spec_get_typename_data(buf, pos);
    &&& 0 <= pos
    &&& pos + usize_width() <= buf.len()
    &&& r.0.1 + usize_width() <= buf.len()
    &&& r.1.1 <= usize::MAX
}

pub proof fn lemma_usize_width()
    ensures
        usize_width() == 4 || usize_width() == 8,
        pow(256, usize_width()) == usize::MAX + 1,
{
    broadcast use vstd::layout::layout_of_primitives;
    vstd::layout::unsigned_int_max_values();
}

pub proof fn lemma_le_digits_len(x: nat, n: nat)
    ensures
        le_digits(x, n).len() == n,
    decreases n,
{
    if n > 0 {
        lemma_le_digits_len(x / 256, (n - 1) as nat);
    }
}

pub proof fn lemma_le_roundtrip(x: nat, n: nat)
    requires
        x < pow(256, n),
    ensures
        le_value(le_digits(x, n)) == x,
    decreases n,
{
    reveal(pow);
    if n > 0 {
        let d = le_digits(x, n);
        lemma_le_digits_len(x, n);
        assert(x / 256 < pow(256, (n - 1) as nat)) by (nonlinear_arith)
            requires
                x < 256 * pow(256, (n - 1) as nat),
        ;
        lemma_le_roundtrip(x / 256, (n - 1) as nat);
        assert(d.drop_first() =~= le_digits(x / 256, (n - 1) as nat));
        assert(x == (x % 256) + 256 * (x / 256)) by (nonlinear_arith);
    }
}

pub proof fn lemma_le_value_bound(s: Seq<u8>)
    ensures
        le_value(s) < pow(256, s.len()),
    decreases s.len(),
{
    reveal(pow);
    if s.len() > 0 {
        lemma_le_value_bound(s.drop_first());
        let p = pow(256, (s.len() - 1) as nat);
        let v = le_value(s.drop_first());
        assert(s[0] as nat + 256 * v < 256 * p) by (nonlinear_arith)
            requires
                v < p,
                s[0] < 256,
        ;
    }
}

pub proof fn lemma_reverse_reverse<A>(s: Seq<A>)
    ensures
        s.reverse().reverse() =~= s,
        s.reverse().len() == s.len(),
{
}

/// Reading back the native representation of a `usize` gives the value.
pub proof fn lemma_ne_roundtrip(x: nat)
    requires
        x <= usize::MAX,
    ensures
        ne_bytes(x).len() == usize_width(),
        ne_value(ne_bytes(x)) == x,
{
    lemma_usize_width();
    lemma_le_digits_len(x, usize_width());
    lemma_le_roundtrip(x, usize_width());
    lemma_reverse_reverse(le_digits(x, usize_width()));
}

/// Every native representation read back is a `usize`.
pub proof fn lemma_ne_value_bound(s: Seq<u8>)
    requires
        s.len() == usize_width(),
    ensures
        ne_value(s) <= usize::MAX,
{
    lemma_usize_width();
    lemma_le_value_bound(s);
    lemma_le_value_bound(s.reverse());
}

/// Reading back a written record: inside any buffer, the type-name record written by
/// `typename_data(ty_name, data)` at offset `pre.len()` is located by `get_typename_data` at that
/// offset, and the two ranges it yields hold exactly `ty_name` and `data`.
pub proof fn lemma_typename_data_roundtrip(
    pre: Seq<u8>,
    ty_name: Seq<u8>,
    data: Seq<u8>,
    post: Seq<u8>,
)
    requires
        pre.len() + ty_name.len() + data.len() + 2 * usize_width() <= usize::MAX,
    ensures
        ({
            let buf = pre + spec_typename_data(ty_name, data) + post;
            let p = pre.len() as int;
            let w = usize_width() as int;
            let r = spec_get_typename_data(buf, p);
            &&& typename_record_readable(buf, p)
            &&& r == ((p + w, p + w + ty_name.len()), (p + 2 * w + ty_name.len(), p + 2 * w
                + ty_name.len() + data.len()))
            &&& buf.subrange(r.0.0, r.0.1) == ty_name
            &&& buf.subrange(r.1.0, r.1.1) == data
        }),
{
    let buf = pre + spec_typename_data(ty_name, data) + post;
    let p = pre.len() as int;
    let w = usize_width() as int;
    lemma_ne_roundtrip(ty_name.len());
    lemma_ne_roundtrip(data.len());
    let q = p + w + ty_name.len();
    assert(buf.subrange(p, p + w) =~= ne_bytes(ty_name.len()));
    assert(buf.subrange(q, q + w) =~= ne_bytes(data.len()));
    assert(buf.subrange(p + w, q) =~= ty_name);
    assert(buf.subrange(q + w, q + w + data.len()) =~= data);
}

/// `usize::to_ne_bytes`: the memory representation of `x` in this machine's byte order.
#[verifier::external_body]
fn usize_to_ne_bytes(x: usize) -> (bytes: Vec<u8>)
    ensures
        bytes@ == ne_bytes(x as nat),
{
    x.to_ne_bytes().to_vec()
}

/// `usize::from_ne_bytes` on the first `size_of::<usize>()` bytes of `data`.
#[verifier::external_body]
fn usize_from_ne_bytes(data: &[u8]) -> (x: usize)
    requires
        data@.len() >= usize_width(),
    ensures
        x as nat == ne_value(data@.subrange(0, usize_width() as int)),
{
    usize::from_ne_bytes(data[..core::mem::size_of::<usize>()].try_into().unwrap())
}

/// Helpers of the save framework: records are stored compactly as a length followed by bytes.
pub struct SaveUtils();

impl SaveUtils {
    /// Returns `data` preceded by its length in this machine's byte order.
    pub fn prefix_len(data: Vec<u8>) -> (ret: Vec<u8>)
        requires
            data@.len() + usize_width() <= isize::MAX,
        ensures
            ret@ == spec_prefix_len(data@),
    {
        let mut data = data;
        let mut ret = usize_to_ne_bytes(data.len());
        ret.append(&mut data);
        ret
    }

    /// Returns the record of a type name and its data: each preceded by its length.
    pub fn typename_data(ty_name: Vec<u8>, data: Vec<u8>) -> (ret: Vec<u8>)
        requires
            ty_name@.len() + data@.len() + 2 * usize_width() <= isize::MAX,
        ensures
            ret@ == spec_typename_data(ty_name@, data@),
    {
        let mut ret = SaveUtils::prefix_len(ty_name);
        let mut tail = SaveUtils::prefix_len(data);
        ret.append(&mut tail);
        ret
    }

    /// Locates the type-name record that starts at `pos`: returns the ranges
    /// `((name_start, name_end), (data_start, data_end))` of its name and data in `buf`.
    pub fn get_typename_data(buf: &[u8], pos: usize) -> (ret: ((usize, usize), (usize, usize)))
        requires
            typename_record_readable(buf@, pos as int),
        ensures
            ret.0.0 == spec_get_typename_data(buf@, pos as int).0.0,
            ret.0.1 == spec_get_typename_data(buf@, pos as int).0.1,
            ret.1.0 == spec_get_typename_data(buf@, pos as int).1.0,
            ret.1.1 == spec_get_typename_data(buf@, pos as int).1.1,
    {
        let v = vstd::slice::slice_subrange(buf, pos, buf.len());
        assert(v@.subrange(0, usize_width() as int) =~= buf@.subrange(
            pos as int,
            pos + usize_width(),
        ));
        let (name_start, name_end) = SaveUtils::recalculate(v, pos);
        let v = vstd::slice::slice_subrange(buf, name_end, buf.len());
        assert(v@.subrange(0, usize_width() as int) =~= buf@.subrange(
            name_end as int,
            name_end + usize_width(),
        ));
        let (data_start, data_end) = SaveUtils::recalculate(v, name_end);
        ((name_start, name_end), (data_start, data_end))
    }

    /// Reads the length stored at the front of `data`.
    pub fn read_prefix_len(data: &[u8]) -> (len: usize)
        requires
            data@.len() >= usize_width(),
        ensures
            len as nat == prefix_at(data@, 0),
    {
        usize_from_ne_bytes(data)
    }

    /// Given the length prefix at the front of `data`, which starts at offset `end` of the
    /// whole buffer, returns the range `(start, end)` of the block that follows the prefix.
    pub fn recalculate(data: &[u8], end: usize) -> (range: (usize, usize))
        requires
            data@.len() >= usize_width(),
            end + usize_width() + prefix_at(data@, 0) <= usize::MAX,
        ensures
            range.0 == end + usize_width(),
            range.1 == end + usize_width() + prefix_at(data@, 0),
    {
        let len = SaveUtils::read_prefix_len(data);
        let start = end + core::mem::size_of::<usize>();
        (start, start + len)
    }
}

} // verus!
