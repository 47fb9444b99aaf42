//! Control messages that pass descriptors (`SCM_RIGHTS`), in the layout of
//! the platform's `cmsghdr`: each message is a header (its length as an
//! integer of `len_size` bytes, then its level and type as 32-bit integers,
//! padded to the alignment), its data, and padding up to the alignment.
//! Integers are in the platform's byte order.

use vstd::prelude::*;

verus! {

/// The platform's control message layout.
#[derive(Clone, Copy)]
pub struct CmsgLayout {
    /// The size of the header's length field (`cmsg_len`): 4 or 8 bytes.
    pub len_size: usize,
    /// The alignment of headers and data: 4 or 8 bytes.
    pub align: usize,
    /// The level of a message that passes descriptors (`SOL_SOCKET`).
    pub sol_socket: i32,
    /// The type of a message that passes descriptors (`SCM_RIGHTS`).
    pub scm_rights: i32,
    /// Whether integers are stored most significant byte first.
    pub big_endian: bool,
}

/// `n` rounded up to a multiple of `a` (4, or else 8).
pub open spec fn align_up(n: int, a: int) -> int {
    if a == 4 {
        (n + 3) / 4 * 4
    } else {
        (n + 7) / 8 * 8
    }
}

impl CmsgLayout {
    /// The layouts that platforms use.
    pub open spec fn wf(self) -> bool {
        &&& self.len_size == 4 || self.len_size == 8
        &&& self.align == 4 || self.align == 8
    }

    /// The offset of the data: the header's fields, padded.
    pub open spec fn hdr(self) -> int {
        align_up(self.len_size + 8, self.align as int)
    }

    /// The offset of the data: the header's fields, padded.
    pub fn hdr_len(&self) -> (n: usize)
        requires
            self.wf(),
        ensures
            n == self.hdr(),
    {
        if self.align == 4 {
            (self.len_size + 8 + 3) / 4 * 4
        } else {
            (self.len_size + 8 + 7) / 8 * 8
        }
    }

    /// The largest length the header's length field holds.
    pub open spec fn max_len(self) -> int {
        if self.len_size == 4 {
            u32::MAX as int
        } else {
            u64::MAX as int
        }
    }
}

/// Rounding up to an alignment gives the least multiple of it that is not
/// below the number.
pub proof fn law_align_up(n: int, a: int)
    requires
        n >= 0,
        a == 4 || a == 8,
    ensures
        align_up(n, a) >= n,
        align_up(n, a) % a == 0,
        align_up(n, a) < n + a,
{
}

/// The data of a control message starts at the header's fields (the
/// length field and two 32-bit integers) rounded up to the alignment: at or
/// past the end of the fields, aligned, and less than one alignment past
/// them.
pub proof fn law_data_offset(l: CmsgLayout)
    requires
        l.wf(),
    ensures
        l.hdr() >= l.len_size + 8,
        l.hdr() % (l.align as int) == 0,
        l.hdr() < l.len_size + 8 + l.align,
{
    law_align_up(l.len_size + 8, l.align as int);
}

/// The room of a message with `data_len` bytes of data covers the padded
/// header and the data, is aligned, and wastes less than one alignment.
pub proof fn law_cmsg_space(l: CmsgLayout, data_len: int)
    requires
        l.wf(),
        data_len >= 0,
    ensures
        align_up(l.hdr() + data_len, l.align as int) >= l.hdr() + data_len,
        align_up(l.hdr() + data_len, l.align as int) % (l.align as int) == 0,
        align_up(l.hdr() + data_len, l.align as int) < l.hdr() + data_len + l.align,
{
    law_data_offset(l);
    law_align_up(l.hdr() + data_len, l.align as int);
}

/// The 32-bit unsigned integer at `b[i..i + 4]`.
pub open spec fn u32_at(b: Seq<u8>, i: int, be: bool) -> int {
    if be {
        b[i + 3] + b[i + 2] * 0x100 + b[i + 1] * 0x1_0000 + b[i] * 0x100_0000
    } else {
        b[i] + b[i + 1] * 0x100 + b[i + 2] * 0x1_0000 + b[i + 3] * 0x100_0000
    }
}

/// The 64-bit unsigned integer at `b[i..i + 8]`.
pub open spec fn u64_at(b: Seq<u8>, i: int, be: bool) -> int {
    if be {
        u32_at(b, i + 4, true) + u32_at(b, i, true) * 0x1_0000_0000
    } else {
        u32_at(b, i, false) + u32_at(b, i + 4, false) * 0x1_0000_0000
    }
}

/// The 32-bit integer at `b[i..i + 4]`, as an `i32`.
pub open spec fn i32_at(b: Seq<u8>, i: int, be: bool) -> i32 {
    u32_at(b, i, be) as u32 as i32
}

/// The header's length field at `b[i..]`.
pub open spec fn len_at(l: CmsgLayout, b: Seq<u8>, i: int) -> int {
    if l.len_size == 4 {
        u32_at(b, i, l.big_endian)
    } else {
        u64_at(b, i, l.big_endian)
    }
}

/// The descriptors in the data of a message: one per whole 4 bytes.
pub open spec fn fds_of(data: Seq<u8>, be: bool) -> Seq<i32> {
    Seq::new(data.len() / 4, |k: int| i32_at(data, 4 * k, be))
}

/// The descriptor groups of the descriptor-passing messages in `b`, in
/// order. Parsing stops at a header that does not fit, or whose length is
/// shorter than a header or runs past the end; messages of other levels or
/// types are passed over.
pub open spec fn parse_rights(l: CmsgLayout, b: Seq<u8>) -> Seq<Seq<i32>>
    decreases b.len(),
{
    let h = l.hdr();
    if b.len() < h || b.len() < 8 {
        Seq::empty()
    } else {
        let len = len_at(l, b, 0);
        if len < h || len < 8 || len > b.len() {
            Seq::empty()
        } else {
            let this = if i32_at(b, l.len_size as int, l.big_endian) == l.sol_socket && i32_at(
                b,
                l.len_size + 4,
                l.big_endian,
            ) == l.scm_rights {
                seq![fds_of(b.subrange(h, len), l.big_endian)]
            } else {
                Seq::empty()
            };
            let step = align_up(len, l.align as int);
            if step >= b.len() {
                this
            } else {
                this + parse_rights(l, b.skip(step))
            }
        }
    }
}

/// The view of each descriptor group.
pub open spec fn groups_view(v: Seq<Vec<i32>>) -> Seq<Seq<i32>> {
    Seq::new(v.len(), |i: int| v[i]@)
}

/// The room a message with `data_len` bytes of data takes, padding
/// included.
pub fn cmsg_space(l: &CmsgLayout, data_len: usize) -> (n: usize)
    requires
        l.wf(),
        data_len <= usize::MAX - 32,
    ensures
        n == align_up(l.hdr() + data_len, l.align as int),
{
    let h = l.hdr_len();
    if l.align == 4 {
        (h + data_len + 3) / 4 * 4
    } else {
        (h + data_len + 7) / 8 * 8
    }
}

fn read_u32(b: &[u8], i: usize, be: bool) -> (x: u32)
    requires
        i + 4 <= b@.len(),
    ensures
        x == u32_at(b@, i as int, be),
{
    let b0 = b[i] as u32;
    let b1 = b[i + 1] as u32;
    let b2 = b[i + 2] as u32;
    let b3 = b[i + 3] as u32;
    assert(b0 < 0x100 && b1 < 0x100 && b2 < 0x100 && b3 < 0x100);
    if be {
        b3 + b2 * 0x100 + b1 * 0x1_0000 + b0 * 0x100_0000
    } else {
        b0 + b1 * 0x100 + b2 * 0x1_0000 + b3 * 0x100_0000
    }
}

fn read_len(l: &CmsgLayout, b: &[u8], i: usize) -> (x: u128)
    requires
        i + l.len_size <= b@.len(),
        l.wf(),
    ensures
        x == len_at(*l, b@, i as int),
{
    // The slice's length bounds `i + 8` within `usize`.
    let _len = b.len();
    if l.len_size == 4 {
        read_u32(b, i, l.big_endian) as u128
    } else {
        let lo: u128;
        let hi: u128;
        if l.big_endian {
            lo = read_u32(b, i + 4, true) as u128;
            hi = read_u32(b, i, true) as u128;
        } else {
            lo = read_u32(b, i, false) as u128;
            hi = read_u32(b, i + 4, false) as u128;
        }
        assert(lo <= u32::MAX && hi <= u32::MAX);
        assert(hi * 0x1_0000_0000 <= 0xffff_ffff_0000_0000u128) by (nonlinear_arith)
            requires
                hi <= u32::MAX,
        ;
        lo + hi * 0x1_0000_0000
    }
}

/// The descriptors in `b[start..end]`, one per whole 4 bytes.
fn read_fds(b: &[u8], start: usize, end: usize, be: bool) -> (fds: Vec<i32>)
    requires
        start <= end <= b@.len(),
    ensures
        fds@ == fds_of(b@.subrange(start as int, end as int), be),
{
    let ghost data = b@.subrange(start as int, end as int);
    let count = (end - start) / 4;
    let mut fds: Vec<i32> = Vec::new();
    let mut k: usize = 0;
    let mut idx: usize = start;
    while k < count
        invariant
            start <= end <= b@.len(),
            data == b@.subrange(start as int, end as int),
            count == (end - start) / 4,
            k <= count,
            idx == start + 4 * k,
            fds@ == Seq::new(k as nat, |t: int| i32_at(data, 4 * t, be)),
        decreases count - k,
    {
        assert(idx + 4 <= end);
        let x = read_u32(b, idx, be) as i32;
        proof {
            assert(i32_at(data, 4 * k, be) == i32_at(b@, idx as int, be));
        }
        fds.push(x);
        k = k + 1;
        idx = idx + 4;
        proof {
            assert(fds@ =~= Seq::new(k as nat, |t: int| i32_at(data, 4 * t, be)));
        }
    }
    assert(fds@ =~= fds_of(data, be));
    fds
}

/// Split control messages into the descriptor groups of those that pass
/// descriptors, in order.
#[verifier::rlimit(60)]
#[verifier::spinoff_prover]
pub fn parse_rights_msgs(l: &CmsgLayout, b: &[u8]) -> (groups: Vec<Vec<i32>>)
    requires
        l.wf(),
    ensures
        groups_view(groups@) == parse_rights(*l, b@),
{
    let h = l.hdr_len();
    let be = l.big_endian;
    let mut groups: Vec<Vec<i32>> = Vec::new();
    let mut pos: usize = 0;
    assert(b@.skip(0) =~= b@);
    loop
        invariant
            l.wf(),
            h == l.hdr(),
            be == l.big_endian,
            pos <= b@.len(),
            groups_view(groups@) + parse_rights(*l, b@.skip(pos as int)) == parse_rights(*l, b@),
        ensures
            groups_view(groups@) == parse_rights(*l, b@),
        decreases b@.len() - pos,
    {
        if pos >= b.len() {
            proof {
                assert(parse_rights(*l, b@.skip(pos as int)) == Seq::<Seq<i32>>::empty());
                assert(groups_view(groups@) =~= groups_view(groups@) + parse_rights(
                    *l,
                    b@.skip(pos as int),
                ));
            }
            break;
        }
        let ghost rest = b@.skip(pos as int);
        let rem = b.len() - pos;
        if rem < h || rem < 8 {
            proof {
                assert(parse_rights(*l, rest) == Seq::<Seq<i32>>::empty());
                assert(groups_view(groups@) + parse_rights(*l, rest) =~= groups_view(groups@));
            }
            break;
        }
        let len128 = read_len(l, b, pos);
        proof {
            assert(len_at(*l, rest, 0) == len_at(*l, b@, pos as int));
        }
        if len128 < h as u128 || len128 < 8 || len128 > rem as u128 {
            proof {
                assert(parse_rights(*l, rest) == Seq::<Seq<i32>>::empty());
                assert(groups_view(groups@) + parse_rights(*l, rest) =~= groups_view(groups@));
            }
            break;
        }
        let len = len128 as usize;
        let level = read_u32(b, pos + l.len_size, be) as i32;
        let ty = read_u32(b, pos + l.len_size + 4, be) as i32;
        proof {
            assert(i32_at(rest, l.len_size as int, be) == i32_at(b@, pos + l.len_size, be));
            assert(i32_at(rest, l.len_size + 4, be) == i32_at(b@, pos + l.len_size + 4, be));
        }
        let ghost this = if level == l.sol_socket && ty == l.scm_rights {
            seq![fds_of(rest.subrange(h as int, len as int), be)]
        } else {
            Seq::<Seq<i32>>::empty()
        };
        let ghost old_groups = groups_view(groups@);
        if level == l.sol_socket && ty == l.scm_rights {
            let fds = read_fds(b, pos + h, pos + len, be);
            proof {
                assert(b@.subrange(pos + h, pos + len) =~= rest.subrange(h as int, len as int));
            }
            groups.push(fds);
        }
        proof {
            assert(groups_view(groups@) =~= old_groups + this);
        }
        let step128: u128 = if l.align == 4 {
            (len128 + 3) / 4 * 4
        } else {
            (len128 + 7) / 8 * 8
        };
        if step128 >= rem as u128 {
            proof {
                assert(parse_rights(*l, rest) == this);
                assert(groups_view(groups@) =~= old_groups + parse_rights(*l, rest));
                assert(groups_view(groups@) + parse_rights(*l, b@.skip(b@.len() as int))
                    =~= groups_view(groups@));
            }
            pos = b.len();
        } else {
            let step = step128 as usize;
            proof {
                assert(parse_rights(*l, rest) == this + parse_rights(*l, rest.skip(step as int)));
                assert(rest.skip(step as int) =~= b@.skip(pos + step));
                assert(groups_view(groups@) + parse_rights(*l, b@.skip(pos + step)) =~= old_groups
                    + parse_rights(*l, rest));
            }
            pos = pos + step;
        }
    }
    groups
}

/// The bytes of a 32-bit integer, in the given byte order.
pub open spec fn u32_bytes(x: u32, be: bool) -> Seq<u8> {
    let b0 = (x & 0xff) as u8;
    let b1 = ((x >> 8u32) & 0xff) as u8;
    let b2 = ((x >> 16u32) & 0xff) as u8;
    let b3 = ((x >> 24u32) & 0xff) as u8;
    if be {
        seq![b3, b2, b1, b0]
    } else {
        seq![b0, b1, b2, b3]
    }
}

/// The bytes of a 64-bit integer, in the given byte order.
pub open spec fn u64_bytes(x: u64, be: bool) -> Seq<u8> {
    let lo = (x & 0xffff_ffff) as u32;
    let hi = (x >> 32u64) as u32;
    if be {
        u32_bytes(hi, true) + u32_bytes(lo, true)
    } else {
        u32_bytes(lo, false) + u32_bytes(hi, false)
    }
}

/// The bytes of a header's length field holding `n`.
pub open spec fn len_bytes(l: CmsgLayout, n: int) -> Seq<u8> {
    if l.len_size == 4 {
        u32_bytes(n as u32, l.big_endian)
    } else {
        u64_bytes(n as u64, l.big_endian)
    }
}

/// `n` zero bytes.
pub open spec fn zeros(n: int) -> Seq<u8> {
    Seq::new(n as nat, |i: int| 0u8)
}

/// The bytes of descriptors, one after the other.
pub open spec fn fds_bytes(fds: Seq<i32>, be: bool) -> Seq<u8>
    decreases fds.len(),
{
    if fds.len() == 0 {
        Seq::empty()
    } else {
        fds_bytes(fds.drop_last(), be) + u32_bytes(fds.last() as u32, be)
    }
}

/// The control message that passes the descriptors `fds`: header, data and
/// padding.
pub open spec fn rights_msg(l: CmsgLayout, fds: Seq<i32>) -> Seq<u8> {
    let len = l.hdr() + 4 * fds.len();
    len_bytes(l, len) + u32_bytes(l.sol_socket as u32, l.big_endian) + u32_bytes(
        l.scm_rights as u32,
        l.big_endian,
    ) + zeros(l.hdr() - l.len_size - 8) + fds_bytes(fds, l.big_endian) + zeros(
        align_up(len, l.align as int) - len,
    )
}

proof fn lemma_u32_round_trip(x: u32, be: bool)
    ensures
        u32_at(u32_bytes(x, be), 0, be) == x,
        (x as i32) as u32 == x,
{
    let b0 = (x & 0xff) as u8;
    let b1 = ((x >> 8u32) & 0xff) as u8;
    let b2 = ((x >> 16u32) & 0xff) as u8;
    let b3 = ((x >> 24u32) & 0xff) as u8;
    assert(b0 + b1 * 0x100 + b2 * 0x1_0000 + b3 * 0x100_0000 == x) by (bit_vector)
        requires
            b0 == (x & 0xff) as u8,
            b1 == ((x >> 8u32) & 0xff) as u8,
            b2 == ((x >> 16u32) & 0xff) as u8,
            b3 == ((x >> 24u32) & 0xff) as u8,
    ;
    assert((x as i32) as u32 == x) by (bit_vector);
}

proof fn lemma_i32_round_trip(x: i32, be: bool)
    ensures
        i32_at(u32_bytes(x as u32, be), 0, be) == x,
{
    lemma_u32_round_trip(x as u32, be);
    assert((x as u32) as i32 == x) by (bit_vector);
}

proof fn lemma_u64_round_trip(x: u64, be: bool)
    ensures
        u64_at(u64_bytes(x, be), 0, be) == x,
{
    let lo = (x & 0xffff_ffff) as u32;
    let hi = (x >> 32u64) as u32;
    lemma_u32_round_trip(lo, be);
    lemma_u32_round_trip(hi, be);
    assert(lo + hi * 0x1_0000_0000 == x) by (bit_vector)
        requires
            lo == (x & 0xffff_ffff) as u32,
            hi == (x >> 32u64) as u32,
    ;
    let b = u64_bytes(x, be);
    if be {
        assert(u32_at(b, 4, true) == u32_at(u32_bytes(lo, true), 0, true));
        assert(u32_at(b, 0, true) == u32_at(u32_bytes(hi, true), 0, true));
    } else {
        assert(u32_at(b, 0, false) == u32_at(u32_bytes(lo, false), 0, false));
        assert(u32_at(b, 4, false) == u32_at(u32_bytes(hi, false), 0, false));
    }
}

proof fn lemma_fds_bytes(fds: Seq<i32>, be: bool)
    ensures
        fds_bytes(fds, be).len() == 4 * fds.len(),
        forall|k: int, t: int|
            0 <= k < fds.len() && 0 <= t < 4 ==> #[trigger] fds_bytes(fds, be)[4 * k + t]
                == u32_bytes(fds[k] as u32, be)[t],
    decreases fds.len(),
{
    if fds.len() > 0 {
        let init = fds.drop_last();
        lemma_fds_bytes(init, be);
        assert forall|k: int, t: int|
            0 <= k < fds.len() && 0 <= t < 4 implies #[trigger] fds_bytes(fds, be)[4 * k + t]
                == u32_bytes(fds[k] as u32, be)[t] by {
            if k < init.len() {
                assert(fds_bytes(init, be)[4 * k + t] == u32_bytes(init[k] as u32, be)[t]);
            }
        }
    }
}

proof fn lemma_msg_parts(l: CmsgLayout, fds: Seq<i32>)
    requires
        l.wf(),
    ensures
        ({
            let be = l.big_endian;
            let h = l.hdr();
            let len = h + 4 * fds.len();
            let b = rights_msg(l, fds);
            let lb = len_bytes(l, len);
            let sb = u32_bytes(l.sol_socket as u32, be);
            let tb = u32_bytes(l.scm_rights as u32, be);
            &&& b.len() == align_up(len, l.align as int)
            &&& b.subrange(0, l.len_size as int) == lb
            &&& b.subrange(l.len_size as int, l.len_size + 4) == sb
            &&& b.subrange(l.len_size + 4, l.len_size + 8) == tb
            &&& b.subrange(h, len) == fds_bytes(fds, be)
        }),
{
    let be = l.big_endian;
    let h = l.hdr();
    let len = h + 4 * fds.len();
    lemma_fds_bytes(fds, be);
    let lb = len_bytes(l, len);
    let sb = u32_bytes(l.sol_socket as u32, be);
    let tb = u32_bytes(l.scm_rights as u32, be);
    let z1 = zeros(h - l.len_size - 8);
    let fb = fds_bytes(fds, be);
    let z2 = zeros(align_up(len, l.align as int) - len);
    let b = rights_msg(l, fds);
    assert(lb.len() == l.len_size);
    assert(b == lb + sb + tb + z1 + fb + z2);
    assert(b.subrange(0, l.len_size as int) =~= lb);
    assert(b.subrange(l.len_size as int, l.len_size + 4) =~= sb);
    assert(b.subrange(l.len_size + 4, l.len_size + 8) =~= tb);
    assert(b.subrange(h, len) =~= fb);
}

proof fn lemma_len_field(l: CmsgLayout, b: Seq<u8>, n: int)
    requires
        l.wf(),
        0 <= n <= l.max_len(),
        b.len() >= l.len_size,
        b.subrange(0, l.len_size as int) == len_bytes(l, n),
    ensures
        len_at(l, b, 0) == n,
{
    let be = l.big_endian;
    let lb = len_bytes(l, n);
    if l.len_size == 4 {
        lemma_u32_round_trip(n as u32, be);
        assert(b[0] == lb[0] && b[1] == lb[1] && b[2] == lb[2] && b[3] == lb[3]);
    } else {
        lemma_u64_round_trip(n as u64, be);
        assert(b[0] == lb[0] && b[1] == lb[1] && b[2] == lb[2] && b[3] == lb[3]);
        assert(b[4] == lb[4] && b[5] == lb[5] && b[6] == lb[6] && b[7] == lb[7]);
    }
}

proof fn lemma_i32_field(b: Seq<u8>, i: int, x: i32, be: bool)
    requires
        0 <= i,
        i + 4 <= b.len(),
        b.subrange(i, i + 4) == u32_bytes(x as u32, be),
    ensures
        i32_at(b, i, be) == x,
{
    let xb = u32_bytes(x as u32, be);
    lemma_i32_round_trip(x, be);
    assert(b[i] == xb[0] && b[i + 1] == xb[1] && b[i + 2] == xb[2] && b[i + 3] == xb[3]);
}

proof fn lemma_fds_of_bytes(fds: Seq<i32>, be: bool)
    ensures
        fds_of(fds_bytes(fds, be), be) == fds,
{
    lemma_fds_bytes(fds, be);
    let data = fds_bytes(fds, be);
    assert forall|k: int| 0 <= k < fds.len() implies i32_at(data, 4 * k, be) == fds[k] by {
        let xb = u32_bytes(fds[k] as u32, be);
        assert forall|t: int| 0 <= t < 4 implies data.subrange(4 * k, 4 * k + 4)[t] == xb[t] by {
            assert(fds_bytes(fds, be)[4 * k + t] == xb[t]);
        }
        assert(data.subrange(4 * k, 4 * k + 4) =~= xb);
        lemma_i32_field(data, 4 * k, fds[k], be);
    }
    assert(fds_of(data, be) =~= fds);
}

/// The messages that pass each group of `gs`, one after the other.
pub open spec fn rights_msgs(l: CmsgLayout, gs: Seq<Seq<i32>>) -> Seq<u8>
    decreases gs.len(),
{
    if gs.len() == 0 {
        Seq::empty()
    } else {
        rights_msg(l, gs[0]) + rights_msgs(l, gs.drop_first())
    }
}

/// Parsing a message that passes `fds`, followed by other bytes, gives
/// `fds` and then what the other bytes give.
proof fn lemma_parse_rights_msg_then(l: CmsgLayout, fds: Seq<i32>, rest: Seq<u8>)
    requires
        l.wf(),
        l.hdr() + 4 * fds.len() <= l.max_len(),
    ensures
        parse_rights(l, rights_msg(l, fds) + rest) == seq![fds] + parse_rights(l, rest),
{
    let be = l.big_endian;
    let h = l.hdr();
    let len = h + 4 * fds.len();
    let m = rights_msg(l, fds);
    let b = m + rest;
    lemma_msg_parts(l, fds);
    assert(b.subrange(0, l.len_size as int) =~= m.subrange(0, l.len_size as int));
    assert(b.subrange(l.len_size as int, l.len_size + 4) =~= m.subrange(
        l.len_size as int,
        l.len_size + 4,
    ));
    assert(b.subrange(l.len_size + 4, l.len_size + 8) =~= m.subrange(
        l.len_size + 4,
        l.len_size + 8,
    ));
    assert(b.subrange(h, len) =~= m.subrange(h, len));
    lemma_len_field(l, b, len);
    lemma_i32_field(b, l.len_size as int, l.sol_socket, be);
    lemma_i32_field(b, l.len_size + 4, l.scm_rights, be);
    lemma_fds_of_bytes(fds, be);
    assert(b.skip(m.len() as int) =~= rest);
    if rest.len() == 0 {
        assert(parse_rights(l, rest) =~= Seq::<Seq<i32>>::empty());
    }
    assert(parse_rights(l, b) =~= seq![fds] + parse_rights(l, rest));
}

/// Parsing the message that passes a group of descriptors gives back that
/// group, and only it.
pub proof fn law_rights_msg_round_trip(l: CmsgLayout, fds: Seq<i32>)
    requires
        l.wf(),
        l.hdr() + 4 * fds.len() <= l.max_len(),
    ensures
        parse_rights(l, rights_msg(l, fds)) == seq![fds],
{
    lemma_parse_rights_msg_then(l, fds, Seq::empty());
    assert(rights_msg(l, fds) + Seq::<u8>::empty() =~= rights_msg(l, fds));
    assert(parse_rights(l, Seq::<u8>::empty()) =~= Seq::<Seq<i32>>::empty());
    assert(seq![fds] + Seq::<Seq<i32>>::empty() =~= seq![fds]);
}

/// Parsing the messages that pass several groups, one after the other,
/// gives back the groups, in order: none is lost, duplicated or reordered.
pub proof fn law_rights_msgs_round_trip(l: CmsgLayout, gs: Seq<Seq<i32>>)
    requires
        l.wf(),
        forall|i: int| 0 <= i < gs.len() ==> l.hdr() + 4 * (#[trigger] gs[i]).len() <= l.max_len(),
    ensures
        parse_rights(l, rights_msgs(l, gs)) == gs,
    decreases gs.len(),
{
    if gs.len() == 0 {
        assert(parse_rights(l, Seq::<u8>::empty()) =~= Seq::<Seq<i32>>::empty());
    } else {
        let rest = gs.drop_first();
        assert forall|i: int| 0 <= i < rest.len() implies l.hdr() + 4 * (#[trigger] rest[i]).len()
            <= l.max_len() by {
            assert(rest[i] == gs[i + 1]);
        }
        law_rights_msgs_round_trip(l, rest);
        lemma_parse_rights_msg_then(l, gs[0], rights_msgs(l, rest));
        assert(seq![gs[0]] + rest =~= gs);
    }
}

fn push_u32(out: &mut Vec<u8>, x: u32, be: bool)
    ensures
        final(out)@ == old(out)@ + u32_bytes(x, be),
{
    let b0 = (x & 0xff) as u8;
    let b1 = ((x >> 8u32) & 0xff) as u8;
    let b2 = ((x >> 16u32) & 0xff) as u8;
    let b3 = ((x >> 24u32) & 0xff) as u8;
    if be {
        out.push(b3);
        out.push(b2);
        out.push(b1);
        out.push(b0);
    } else {
        out.push(b0);
        out.push(b1);
        out.push(b2);
        out.push(b3);
    }
    assert(final(out)@ =~= old(out)@ + u32_bytes(x, be));
}

fn push_zeros(out: &mut Vec<u8>, n: usize)
    ensures
        final(out)@ == old(out)@ + zeros(n as int),
{
    let mut i: usize = 0;
    while i < n
        invariant
            i <= n,
            out@ == old(out)@ + zeros(i as int),
        decreases n - i,
    {
        out.push(0u8);
        i = i + 1;
        assert(out@ =~= old(out)@ + zeros(i as int));
    }
}

/// Build the control message that passes the descriptors `fds`.
pub fn build_rights_msg(l: &CmsgLayout, fds: &[i32]) -> (msg: Vec<u8>)
    requires
        l.wf(),
        l.hdr() + 4 * fds@.len() <= l.max_len(),
        4 * fds@.len() + 32 <= usize::MAX,
    ensures
        msg@ == rights_msg(*l, fds@),
        parse_rights(*l, msg@) == seq![fds@],
{
    let be = l.big_endian;
    let n = fds.len();
    let h = l.hdr_len();
    let len: usize = h + 4 * n;
    let mut msg: Vec<u8> = Vec::new();
    if l.len_size == 4 {
        push_u32(&mut msg, len as u32, be);
    } else {
        let x = len as u64;
        let lo = (x & 0xffff_ffff) as u32;
        let hi = (x >> 32u64) as u32;
        if be {
            push_u32(&mut msg, hi, true);
            push_u32(&mut msg, lo, true);
        } else {
            push_u32(&mut msg, lo, false);
            push_u32(&mut msg, hi, false);
        }
    }
    assert(msg@ =~= len_bytes(*l, len as int));
    push_u32(&mut msg, l.sol_socket as u32, be);
    push_u32(&mut msg, l.scm_rights as u32, be);
    push_zeros(&mut msg, h - l.len_size - 8);
    let ghost head = msg@;
    let mut k: usize = 0;
    while k < n
        invariant
            n == fds@.len(),
            k <= n,
            be == l.big_endian,
            msg@ == head + fds_bytes(fds@.take(k as int), be),
        decreases n - k,
    {
        push_u32(&mut msg, fds[k] as u32, be);
        k = k + 1;
        proof {
            assert(fds@.take(k as int).drop_last() =~= fds@.take(k - 1));
            assert(msg@ =~= head + fds_bytes(fds@.take(k as int), be));
        }
    }
    assert(fds@.take(n as int) =~= fds@);
    let padded: usize = if l.align == 4 {
        (len + 3) / 4 * 4
    } else {
        (len + 7) / 8 * 8
    };
    push_zeros(&mut msg, padded - len);
    proof {
        assert(msg@ =~= rights_msg(*l, fds@));
        law_rights_msg_round_trip(*l, fds@);
    }
    msg
}

} // verus!
