//! The persisted form of a configuration, and its loader and saver.
//!
//! The encoding is a fixed-layout text record: every number is one
//! `DEC_WIDTH`-digit zero-padded decimal field followed by a newline, every
//! pattern is its length followed by its raw bytes and a newline. Fields
//! come in a fixed order: cooldown, starboard channel, starboard threshold,
//! role count, the roles, pattern count, the patterns. The loader accepts
//! exactly the encodings the saver writes; anything else is malformed.

use vstd::prelude::*;

use crate::config::Config;
use crate::config::ConfigV;
use crate::config::patterns_view;
use crate::numtext::DEC_WIDTH;
use crate::numtext::all_dec_digits;
use crate::numtext::dec_val;
use crate::numtext::lemma_padded_shape;
use crate::numtext::lemma_padded_val;
use crate::numtext::lemma_u64_fits_width;
use crate::numtext::push_padded_u64;
use crate::numtext::read_padded_u64;
use crate::numtext::spec_padded;

verus! {

/// Why a configuration document failed to load.
#[derive(Clone, Copy, PartialEq, Eq, Structural, Debug)]
pub enum ConfigLoadError {
    /// The document is not an encoding the saver writes.
    Malformed,
}

/// One number field: `DEC_WIDTH` digits and a newline.
pub open spec fn spec_num_line(n: nat) -> Seq<u8> {
    spec_padded(n, DEC_WIDTH as nat) + seq![10u8]
}

/// The role section: one number line per role, in order.
pub open spec fn spec_roles_sec(rs: Seq<u64>) -> Seq<u8>
    decreases rs.len(),
{
    if rs.len() == 0 {
        Seq::empty()
    } else {
        spec_num_line(rs.first() as nat) + spec_roles_sec(rs.drop_first())
    }
}

/// One pattern: its length as a number line, its raw bytes, a newline.
pub open spec fn spec_pat_line(q: Seq<u8>) -> Seq<u8> {
    spec_num_line(q.len()) + q + seq![10u8]
}

/// The pattern section: one pattern line per pattern, in order.
pub open spec fn spec_pats_sec(ps: Seq<Seq<u8>>) -> Seq<u8>
    decreases ps.len(),
{
    if ps.len() == 0 {
        Seq::empty()
    } else {
        spec_pat_line(ps.first()) + spec_pats_sec(ps.drop_first())
    }
}

/// The persisted form of a configuration value.
pub open spec fn spec_render(v: ConfigV) -> Seq<u8> {
    spec_num_line(v.text_detect_cooldown as nat) + spec_num_line(v.starboard_channel as nat)
        + spec_num_line(v.starboard_threshold as nat) + spec_num_line(v.bot_roles.len())
        + spec_roles_sec(v.bot_roles) + spec_num_line(v.moderated_patterns.len()) + spec_pats_sec(
        v.moderated_patterns,
    )
}

/// A number line is `DEC_WIDTH + 1` bytes: the padded digits, then a newline.
pub broadcast proof fn lemma_num_line_shape(n: nat)
    ensures
        (#[trigger] spec_num_line(n)).len() == DEC_WIDTH + 1,
        spec_num_line(n).subrange(0, DEC_WIDTH as int) == spec_padded(n, DEC_WIDTH as nat),
        spec_num_line(n)[DEC_WIDTH as int] == 10u8,
{
    lemma_padded_shape(n, DEC_WIDTH as nat);
    assert(spec_num_line(n).subrange(0, DEC_WIDTH as int) =~= spec_padded(n, DEC_WIDTH as nat));
}

/// A faithful number line: the value is below the field's capacity, so the
/// digits denote it again.
pub proof fn lemma_num_line_val(n: nat)
    requires
        n <= u64::MAX,
    ensures
        all_dec_digits(spec_num_line(n).subrange(0, DEC_WIDTH as int)),
        dec_val(spec_num_line(n).subrange(0, DEC_WIDTH as int)) == n,
{
    broadcast use lemma_num_line_shape;

    lemma_padded_shape(n, DEC_WIDTH as nat);
    lemma_u64_fits_width();
    lemma_padded_val(n, DEC_WIDTH as nat);
}

/// The role section is `DEC_WIDTH + 1` bytes per role.
pub proof fn lemma_roles_sec_len(rs: Seq<u64>)
    ensures
        spec_roles_sec(rs).len() == (DEC_WIDTH + 1) * rs.len(),
    decreases rs.len(),
{
    broadcast use lemma_num_line_shape;

    if rs.len() > 0 {
        lemma_roles_sec_len(rs.drop_first());
    }
}

/// Appends one number line.
fn push_num_line(out: &mut Vec<u8>, n: u64)
    ensures
        final(out)@ == old(out)@ + spec_num_line(n as nat),
{
    push_padded_u64(out, n);
    out.push(10);
    proof {
        assert(out@ =~= old(out)@ + spec_num_line(n as nat));
    }
}

/// Appends the bytes of `p`.
fn push_bytes(out: &mut Vec<u8>, p: &Vec<u8>)
    ensures
        final(out)@ == old(out)@ + p@,
{
    let mut j: usize = 0;
    while j < p.len()
        invariant
            j <= p@.len(),
            out@ == old(out)@ + p@.take(j as int),
        decreases p@.len() - j,
    {
        out.push(p[j]);
        proof {
            assert(old(out)@ + p@.take(j as int + 1) =~= (old(out)@ + p@.take(j as int)).push(
                p@[j as int],
            ));
        }
        j += 1;
    }
    proof {
        assert(p@.take(p@.len() as int) =~= p@);
    }
}

/// Appends the role section from index `i` on.
fn push_roles(out: &mut Vec<u8>, roles: &Vec<u64>, i: usize)
    requires
        i <= roles@.len(),
    ensures
        final(out)@ == old(out)@ + spec_roles_sec(roles@.skip(i as int)),
    decreases roles@.len() - i,
{
    if i < roles.len() {
        push_num_line(out, roles[i]);
        push_roles(out, roles, i + 1);
        proof {
            let rest = roles@.skip(i as int);
            assert(rest.first() == roles@[i as int]);
            assert(rest.drop_first() =~= roles@.skip(i as int + 1));
            assert(out@ =~= old(out)@ + spec_roles_sec(roles@.skip(i as int)));
        }
    } else {
        proof {
            assert(roles@.skip(i as int) =~= Seq::<u64>::empty());
            assert(out@ + spec_roles_sec(Seq::<u64>::empty()) =~= out@);
        }
    }
}

/// Appends one pattern line.
fn push_pat_line(out: &mut Vec<u8>, p: &Vec<u8>)
    ensures
        final(out)@ == old(out)@ + spec_pat_line(p@),
{
    let len = p.len();
    push_num_line(out, len as u64);
    push_bytes(out, p);
    out.push(10);
    proof {
        assert((len as u64) as nat == p@.len());
        assert(out@ =~= old(out)@ + spec_pat_line(p@));
    }
}

/// Appends the pattern section from index `i` on.
fn push_pats(out: &mut Vec<u8>, pats: &Vec<Vec<u8>>, i: usize)
    requires
        i <= pats@.len(),
    ensures
        final(out)@ == old(out)@ + spec_pats_sec(patterns_view(pats@).skip(i as int)),
    decreases pats@.len() - i,
{
    if i < pats.len() {
        push_pat_line(out, &pats[i]);
        push_pats(out, pats, i + 1);
        proof {
            let rest = patterns_view(pats@).skip(i as int);
            assert(rest.first() == pats@[i as int]@);
            assert(rest.drop_first() =~= patterns_view(pats@).skip(i as int + 1));
            assert(out@ =~= old(out)@ + spec_pats_sec(patterns_view(pats@).skip(i as int)));
        }
    } else {
        proof {
            assert(patterns_view(pats@).skip(i as int) =~= Seq::<Seq<u8>>::empty());
            assert(out@ + spec_pats_sec(Seq::<Seq<u8>>::empty()) =~= out@);
        }
    }
}

/// Saves a configuration: the exact persisted form of its value.
pub fn render_config(c: &Config) -> (out: Vec<u8>)
    ensures
        out@ == spec_render(c@),
{
    let mut out: Vec<u8> = Vec::new();
    push_num_line(&mut out, c.text_detect_cooldown);
    push_num_line(&mut out, c.starboard_channel);
    push_num_line(&mut out, c.starboard_threshold);
    let rcount = c.bot_roles.len();
    push_num_line(&mut out, rcount as u64);
    push_roles(&mut out, &c.bot_roles, 0);
    let pcount = c.moderated_patterns.len();
    push_num_line(&mut out, pcount as u64);
    push_pats(&mut out, &c.moderated_patterns, 0);
    proof {
        assert((rcount as u64) as nat == c@.bot_roles.len());
        assert((pcount as u64) as nat == c@.moderated_patterns.len());
        assert(c.bot_roles@.skip(0) =~= c@.bot_roles);
        assert(patterns_view(c.moderated_patterns@).skip(0) =~= c@.moderated_patterns);
        assert(out@ =~= spec_render(c@));
    }
    out
}

/// A number line denoting `n` stands at `pos` of `b`.
pub open spec fn num_line_at(b: Seq<u8>, pos: int, n: nat) -> bool {
    &&& 0 <= pos
    &&& pos + DEC_WIDTH + 1 <= b.len()
    &&& b.subrange(pos, pos + DEC_WIDTH + 1) == spec_num_line(n)
}

/// The role section for `rs` stands at `pos` of `b`.
pub open spec fn roles_sec_at(b: Seq<u8>, pos: int, rs: Seq<u64>) -> bool {
    &&& 0 <= pos
    &&& pos + spec_roles_sec(rs).len() <= b.len()
    &&& b.subrange(pos, pos + spec_roles_sec(rs).len()) == spec_roles_sec(rs)
}

/// The pattern line for `q` stands at `pos` of `b`.
pub open spec fn pat_line_at(b: Seq<u8>, pos: int, q: Seq<u8>) -> bool {
    &&& 0 <= pos
    &&& q.len() <= u64::MAX
    &&& pos + spec_pat_line(q).len() <= b.len()
    &&& b.subrange(pos, pos + spec_pat_line(q).len()) == spec_pat_line(q)
}

/// The pattern section for `ps` stands at `pos` of `b`.
pub open spec fn pats_sec_at(b: Seq<u8>, pos: int, ps: Seq<Seq<u8>>) -> bool {
    &&& 0 <= pos
    &&& forall|i: int| 0 <= i < ps.len() ==> (#[trigger] ps[i]).len() <= u64::MAX
    &&& pos + spec_pats_sec(ps).len() <= b.len()
    &&& b.subrange(pos, pos + spec_pats_sec(ps).len()) == spec_pats_sec(ps)
}

/// Splitting a located concatenation: each part stands at its own offset.
proof fn lemma_concat_split(b: Seq<u8>, pos: int, x: Seq<u8>, y: Seq<u8>)
    requires
        0 <= pos,
        pos + x.len() + y.len() <= b.len(),
        b.subrange(pos, pos + x.len() + y.len()) == x + y,
    ensures
        b.subrange(pos, pos + x.len()) == x,
        b.subrange(pos + x.len(), pos + x.len() + y.len()) == y,
{
    assert(b.subrange(pos, pos + x.len()) =~= x) by {
        assert forall|i: int| 0 <= i < x.len() implies b.subrange(pos, pos + x.len())[i]
            == x[i] by {
            assert(b.subrange(pos, pos + x.len() + y.len())[i] == (x + y)[i]);
        }
    }
    assert(b.subrange(pos + x.len(), pos + x.len() + y.len()) =~= y) by {
        assert forall|i: int| 0 <= i < y.len() implies b.subrange(
            pos + x.len(),
            pos + x.len() + y.len(),
        )[i] == y[i] by {
            assert(b.subrange(pos + x.len(), pos + x.len() + y.len())[i] == b[pos + x.len() + i]);
            assert(b.subrange(pos, pos + x.len() + y.len())[x.len() + i] == b[pos + x.len() + i]);
            assert((x + y)[x.len() + i] == y[i]);
        }
    }
}

/// A located role section splits into its first line and the rest.
proof fn lemma_roles_sec_split(b: Seq<u8>, pos: int, rs: Seq<u64>)
    requires
        rs.len() > 0,
        roles_sec_at(b, pos, rs),
    ensures
        num_line_at(b, pos, rs.first() as nat),
        roles_sec_at(b, pos + DEC_WIDTH + 1, rs.drop_first()),
        spec_roles_sec(rs).len() == DEC_WIDTH + 1 + spec_roles_sec(rs.drop_first()).len(),
{
    lemma_num_line_shape(rs.first() as nat);
    let line = spec_num_line(rs.first() as nat);
    let rest = spec_roles_sec(rs.drop_first());
    assert(spec_roles_sec(rs) == line + rest);
    lemma_concat_split(b, pos, line, rest);
}

/// A pattern line is its length line, the raw bytes, and a closing newline.
proof fn lemma_pat_line_split(b: Seq<u8>, pos: int, q: Seq<u8>)
    requires
        pat_line_at(b, pos, q),
    ensures
        num_line_at(b, pos, q.len()),
        b.subrange(pos + DEC_WIDTH + 1, pos + DEC_WIDTH + 1 + q.len()) == q,
        b[pos + DEC_WIDTH + 1 + q.len()] == 10u8,
        spec_pat_line(q).len() == DEC_WIDTH + 2 + q.len(),
{
    lemma_num_line_shape(q.len());
    let line = spec_num_line(q.len());
    let tail = q + seq![10u8];
    assert(spec_pat_line(q) =~= line + tail);
    lemma_concat_split(b, pos, line, tail);
    lemma_concat_split(b, pos + line.len(), q, seq![10u8]);
    assert(b[pos + DEC_WIDTH + 1 + q.len()] == b.subrange(
        pos + DEC_WIDTH + 1 + q.len(),
        pos + DEC_WIDTH + 2 + q.len(),
    )[0]);
}

/// A located pattern section splits into its first line and the rest.
proof fn lemma_pats_sec_split(b: Seq<u8>, pos: int, ps: Seq<Seq<u8>>)
    requires
        ps.len() > 0,
        pats_sec_at(b, pos, ps),
    ensures
        pat_line_at(b, pos, ps.first()),
        pats_sec_at(b, pos + spec_pat_line(ps.first()).len(), ps.drop_first()),
        spec_pats_sec(ps).len() == spec_pat_line(ps.first()).len() + spec_pats_sec(
            ps.drop_first(),
        ).len(),
{
    lemma_num_line_shape(ps.first().len());
    let line = spec_pat_line(ps.first());
    let rest = spec_pats_sec(ps.drop_first());
    assert(spec_pats_sec(ps) == line + rest);
    lemma_concat_split(b, pos, line, rest);
    assert(ps.first().len() <= u64::MAX);
    assert forall|i: int| 0 <= i < ps.drop_first().len() implies (
    #[trigger] ps.drop_first()[i]).len() <= u64::MAX by {
        assert(ps.drop_first()[i] == ps[i + 1]);
    }
}

/// Reads one number line at `pos`: the value its digits denote, and the
/// position after the line.
fn read_num_line(bytes: &Vec<u8>, pos: usize) -> (r: Option<(u64, usize)>)
    ensures
        r matches Some(pr) ==> pr.1 as int == pos + DEC_WIDTH + 1 && pr.1 <= bytes@.len(),
        forall|n: u64| #[trigger] num_line_at(bytes@, pos as int, n as nat) ==> r == Some(
            (n, (pos + DEC_WIDTH + 1) as usize),
        ),
{
    let blen = bytes.len();
    if blen < DEC_WIDTH + 1 || pos > blen - (DEC_WIDTH + 1) {
        proof {
            assert forall|n: u64| num_line_at(bytes@, pos as int, n as nat) implies false by {
                lemma_num_line_shape(n as nat);
            }
        }
        return None;
    }
    let ghost w20 = bytes@.subrange(pos as int, pos as int + DEC_WIDTH as int);
    proof {
        assert forall|n: u64| num_line_at(bytes@, pos as int, n as nat) implies all_dec_digits(w20)
            && dec_val(w20) == n as nat by {
            lemma_num_line_shape(n as nat);
            lemma_num_line_val(n as nat);
            assert(w20 =~= bytes@.subrange(pos as int, pos as int + DEC_WIDTH + 1).subrange(
                0,
                DEC_WIDTH as int,
            ));
        }
    }
    match read_padded_u64(bytes, pos) {
        None => {
            None
        },
        Some(v) => {
            if bytes[pos + DEC_WIDTH] == 10 {
                proof {
                    assert forall|n: u64| num_line_at(bytes@, pos as int, n as nat) implies v
                        == n by {
                        lemma_num_line_val(n as nat);
                    }
                }
                Some((v, pos + DEC_WIDTH + 1))
            } else {
                proof {
                    assert forall|n: u64| num_line_at(
                        bytes@,
                        pos as int,
                        n as nat,
                    ) implies false by {
                        lemma_num_line_shape(n as nat);
                        assert(bytes@[pos as int + DEC_WIDTH] == bytes@.subrange(
                            pos as int,
                            pos as int + DEC_WIDTH + 1,
                        )[DEC_WIDTH as int]);
                    }
                }
                None
            }
        },
    }
}

/// Reads `count` role lines at `pos` into `acc`.
fn read_roles_into(bytes: &Vec<u8>, pos: usize, count: u64, acc: &mut Vec<u64>) -> (r: Option<
    usize,
>)
    ensures
        forall|rs: Seq<u64>| rs.len() == count && #[trigger] roles_sec_at(bytes@, pos as int, rs)
            ==> (r matches Some(p2) && p2 as int == pos + spec_roles_sec(rs).len()
            && final(acc)@ == old(acc)@ + rs),
    decreases count,
{
    if count == 0 {
        proof {
            assert forall|rs: Seq<u64>|
                rs.len() == 0 && roles_sec_at(bytes@, pos as int, rs) implies pos as int == pos
                + spec_roles_sec(rs).len() && acc@ == acc@ + rs by {
                assert(rs =~= Seq::<u64>::empty());
                assert(acc@ + rs =~= acc@);
            }
        }
        return Some(pos);
    }
    match read_num_line(bytes, pos) {
        None => {
            proof {
                assert forall|rs: Seq<u64>|
                    rs.len() == count && roles_sec_at(bytes@, pos as int, rs) implies false by {
                    lemma_roles_sec_split(bytes@, pos as int, rs);
                }
            }
            None
        },
        Some((v, p1)) => {
            acc.push(v);
            let ghost mid = acc@;
            match read_roles_into(bytes, p1, count - 1, acc) {
                None => {
                    proof {
                        assert forall|rs: Seq<u64>|
                            rs.len() == count && roles_sec_at(
                                bytes@,
                                pos as int,
                                rs,
                            ) implies false by {
                            lemma_roles_sec_split(bytes@, pos as int, rs);
                        }
                    }
                    None
                },
                Some(p2) => {
                    proof {
                        assert forall|rs: Seq<u64>|
                            rs.len() == count && roles_sec_at(bytes@, pos as int, rs) implies p2
                            as int == pos + spec_roles_sec(rs).len() && acc@ == old(acc)@ + rs by {
                            lemma_roles_sec_split(bytes@, pos as int, rs);
                            assert(v == rs.first());
                            assert(mid == old(acc)@ + seq![rs.first()]);
                            assert(acc@ == mid + rs.drop_first());
                            assert(old(acc)@ + rs =~= (old(acc)@ + seq![rs.first()])
                                + rs.drop_first());
                        }
                    }
                    Some(p2)
                },
            }
        },
    }
}

/// Copies `len` bytes at `start` into a fresh vector.
fn copy_range(bytes: &Vec<u8>, start: usize, len: usize) -> (r: Vec<u8>)
    requires
        start + len <= bytes@.len(),
    ensures
        r@ == bytes@.subrange(start as int, start as int + len as int),
{
    let mut r: Vec<u8> = Vec::new();
    let blen = bytes.len();
    let mut j: usize = 0;
    while j < len
        invariant
            start + len <= bytes@.len(),
            bytes@.len() == blen,
            j <= len,
            r@ == bytes@.subrange(start as int, start as int + j as int),
        decreases len - j,
    {
        r.push(bytes[start + j]);
        proof {
            assert(bytes@.subrange(start as int, start as int + j as int + 1) =~= bytes@.subrange(
                start as int,
                start as int + j as int,
            ).push(bytes@[start as int + j as int]));
        }
        j += 1;
    }
    r
}

/// Reads one pattern line at `pos`: the pattern's bytes and the position
/// after the closing newline.
fn read_pat_line(bytes: &Vec<u8>, pos: usize) -> (r: Option<(Vec<u8>, usize)>)
    ensures
        forall|q: Seq<u8>| #[trigger] pat_line_at(bytes@, pos as int, q) ==> (r matches Some(pr)
            && pr.0@ == q && pr.1 as int == pos + spec_pat_line(q).len()),
{
    match read_num_line(bytes, pos) {
        None => {
            proof {
                assert forall|q: Seq<u8>| pat_line_at(bytes@, pos as int, q) implies false by {
                    lemma_pat_line_split(bytes@, pos as int, q);
                    assert(num_line_at(bytes@, pos as int, (q.len() as u64) as nat));
                }
            }
            None
        },
        Some((l, p1)) => {
            let blen = bytes.len();
            if l > ((blen - p1) as u64) {
                proof {
                    assert forall|q: Seq<u8>| pat_line_at(bytes@, pos as int, q) implies false by {
                        lemma_pat_line_split(bytes@, pos as int, q);
                        assert(num_line_at(bytes@, pos as int, (q.len() as u64) as nat));
                    }
                }
                None
            } else {
                let lu = l as usize;
                if p1 + lu >= blen {
                    proof {
                        assert forall|q: Seq<u8>|
                            pat_line_at(bytes@, pos as int, q) implies false by {
                            lemma_pat_line_split(bytes@, pos as int, q);
                            assert(num_line_at(bytes@, pos as int, (q.len() as u64) as nat));
                        }
                    }
                    None
                } else if bytes[p1 + lu] != 10 {
                    proof {
                        assert forall|q: Seq<u8>|
                            pat_line_at(bytes@, pos as int, q) implies false by {
                            lemma_pat_line_split(bytes@, pos as int, q);
                            assert(num_line_at(bytes@, pos as int, (q.len() as u64) as nat));
                        }
                    }
                    None
                } else {
                    let pv = copy_range(bytes, p1, lu);
                    proof {
                        assert forall|q: Seq<u8>|
                            pat_line_at(bytes@, pos as int, q) implies pv@ == q && (p1 + lu + 1)
                            as int == pos + spec_pat_line(q).len() by {
                            lemma_pat_line_split(bytes@, pos as int, q);
                            assert(num_line_at(bytes@, pos as int, (q.len() as u64) as nat));
                            assert(lu as int == q.len());
                        }
                    }
                    Some((pv, p1 + lu + 1))
                }
            }
        },
    }
}

/// Reads `count` pattern lines at `pos` into `acc`.
fn read_pats_into(bytes: &Vec<u8>, pos: usize, count: u64, acc: &mut Vec<Vec<u8>>) -> (r: Option<
    usize,
>)
    ensures
        forall|ps: Seq<Seq<u8>>|
            ps.len() == count && #[trigger] pats_sec_at(bytes@, pos as int, ps) ==> (r
                matches Some(p2) && p2 as int == pos + spec_pats_sec(ps).len() 
                && patterns_view(final(acc)@) == patterns_view(old(acc)@) + ps),
    decreases count,
{
    if count == 0 {
        proof {
            assert forall|ps: Seq<Seq<u8>>|
                ps.len() == 0 && pats_sec_at(bytes@, pos as int, ps) implies pos as int == pos
                + spec_pats_sec(ps).len() && patterns_view(acc@) == patterns_view(acc@) + ps by {
                assert(ps =~= Seq::<Seq<u8>>::empty());
                assert(patterns_view(acc@) + ps =~= patterns_view(acc@));
            }
        }
        return Some(pos);
    }
    match read_pat_line(bytes, pos) {
        None => {
            proof {
                assert forall|ps: Seq<Seq<u8>>|
                    ps.len() == count && pats_sec_at(bytes@, pos as int, ps) implies false by {
                    lemma_pats_sec_split(bytes@, pos as int, ps);
                }
            }
            None
        },
        Some((pv, p1)) => {
            let ghost pvv = pv@;
            acc.push(pv);
            let ghost mid = acc@;
            match read_pats_into(bytes, p1, count - 1, acc) {
                None => {
                    proof {
                        assert forall|ps: Seq<Seq<u8>>|
                            ps.len() == count && pats_sec_at(
                                bytes@,
                                pos as int,
                                ps,
                            ) implies false by {
                            lemma_pats_sec_split(bytes@, pos as int, ps);
                        }
                    }
                    None
                },
                Some(p2) => {
                    proof {
                        assert forall|ps: Seq<Seq<u8>>|
                            ps.len() == count && pats_sec_at(bytes@, pos as int, ps) implies p2
                            as int == pos + spec_pats_sec(ps).len() && patterns_view(acc@)
                            == patterns_view(old(acc)@) + ps by {
                            lemma_pats_sec_split(bytes@, pos as int, ps);
                            assert(pvv == ps.first());
                            assert(patterns_view(mid) =~= patterns_view(old(acc)@) + seq![
                                ps.first(),
                            ]);
                            assert(patterns_view(acc@) == patterns_view(mid) + ps.drop_first());
                            assert(patterns_view(old(acc)@) + ps =~= (patterns_view(old(acc)@)
                                + seq![ps.first()]) + ps.drop_first());
                        }
                    }
                    Some(p2)
                },
            }
        },
    }
}

/// The located pieces of a whole rendered configuration.
proof fn lemma_render_split(b: Seq<u8>, v: ConfigV)
    requires
        v.valid(),
        b == spec_render(v),
    ensures
        num_line_at(b, 0, v.text_detect_cooldown as nat),
        num_line_at(b, DEC_WIDTH + 1, v.starboard_channel as nat),
        num_line_at(b, 2 * (DEC_WIDTH + 1), v.starboard_threshold as nat),
        num_line_at(b, 3 * (DEC_WIDTH + 1), v.bot_roles.len()),
        roles_sec_at(b, 4 * (DEC_WIDTH + 1), v.bot_roles),
        num_line_at(
            b,
            4 * (DEC_WIDTH + 1) + spec_roles_sec(v.bot_roles).len(),
            v.moderated_patterns.len(),
        ),
        pats_sec_at(
            b,
            5 * (DEC_WIDTH + 1) + spec_roles_sec(v.bot_roles).len(),
            v.moderated_patterns,
        ),
{
    let a1 = spec_num_line(v.text_detect_cooldown as nat);
    let a2 = spec_num_line(v.starboard_channel as nat);
    let a3 = spec_num_line(v.starboard_threshold as nat);
    let a4 = spec_num_line(v.bot_roles.len());
    let a5 = spec_roles_sec(v.bot_roles);
    let a6 = spec_num_line(v.moderated_patterns.len());
    let a7 = spec_pats_sec(v.moderated_patterns);
    lemma_num_line_shape(v.text_detect_cooldown as nat);
    lemma_num_line_shape(v.starboard_channel as nat);
    lemma_num_line_shape(v.starboard_threshold as nat);
    lemma_num_line_shape(v.bot_roles.len());
    lemma_num_line_shape(v.moderated_patterns.len());
    lemma_roles_sec_len(v.bot_roles);
    assert(b == a1 + a2 + a3 + a4 + a5 + a6 + a7);
    assert(b.subrange(0, b.len() as int) =~= b);
    assert(b =~= a1 + (a2 + (a3 + (a4 + (a5 + (a6 + a7))))));
    lemma_concat_split(b, 0, a1, a2 + (a3 + (a4 + (a5 + (a6 + a7)))));
    lemma_concat_split(b, DEC_WIDTH + 1, a2, a3 + (a4 + (a5 + (a6 + a7))));
    lemma_concat_split(b, 2 * (DEC_WIDTH + 1), a3, a4 + (a5 + (a6 + a7)));
    lemma_concat_split(b, 3 * (DEC_WIDTH + 1), a4, a5 + (a6 + a7));
    lemma_concat_split(b, 4 * (DEC_WIDTH + 1), a5, a6 + a7);
    lemma_concat_split(b, 4 * (DEC_WIDTH + 1) + a5.len() as int, a6, a7);
}

/// Whether two byte vectors hold the same bytes.
fn bytes_eq(a: &Vec<u8>, b: &Vec<u8>) -> (r: bool)
    ensures
        r == (a@ == b@),
{
    if a.len() != b.len() {
        return false;
    }
    let mut i: usize = 0;
    while i < a.len()
        invariant
            i <= a@.len(),
            a@.len() == b@.len(),
            forall|j: int| 0 <= j < i ==> a@[j] == b@[j],
        decreases a@.len() - i,
    {
        if a[i] != b[i] {
            return false;
        }
        i += 1;
    }
    proof {
        assert(a@ =~= b@);
    }
    true
}

/// Decodes a document by the fixed layout. On any document that is the
/// saved form of a valid configuration value, the decoder succeeds and
/// returns exactly that value.
fn decode_config(bytes: &Vec<u8>) -> (r: Option<Config>)
    ensures
        forall|v: ConfigV| v.valid() && bytes@ == #[trigger] spec_render(v) ==> (r matches Some(
            c,
        ) && c@ == v),
{
    let r0 = read_num_line(bytes, 0);
    let (cooldown, p1) = match r0 {
        None => {
            proof {
                assert forall|v: ConfigV| v.valid() && bytes@ == spec_render(v) implies false by {
                    lemma_render_split(bytes@, v);
                }
            }
            return None;
        },
        Some(x) => x,
    };
    let r1 = read_num_line(bytes, p1);
    let (channel, p2) = match r1 {
        None => {
            proof {
                assert forall|v: ConfigV| v.valid() && bytes@ == spec_render(v) implies false by {
                    lemma_render_split(bytes@, v);
                }
            }
            return None;
        },
        Some(x) => x,
    };
    let r2 = read_num_line(bytes, p2);
    let (threshold, p3) = match r2 {
        None => {
            proof {
                assert forall|v: ConfigV| v.valid() && bytes@ == spec_render(v) implies false by {
                    lemma_render_split(bytes@, v);
                }
            }
            return None;
        },
        Some(x) => x,
    };
    let r3 = read_num_line(bytes, p3);
    let (rcount, p4) = match r3 {
        None => {
            proof {
                assert forall|v: ConfigV| v.valid() && bytes@ == spec_render(v) implies false by {
                    lemma_render_split(bytes@, v);
                    assert(num_line_at(bytes@, 3 * (DEC_WIDTH + 1), ((v.bot_roles.len() as u64)
                        as nat)));
                }
            }
            return None;
        },
        Some(x) => x,
    };
    let mut roles: Vec<u64> = Vec::new();
    let r4 = read_roles_into(bytes, p4, rcount, &mut roles);
    let p5 = match r4 {
        None => {
            proof {
                assert forall|v: ConfigV| v.valid() && bytes@ == spec_render(v) implies false by {
                    lemma_render_split(bytes@, v);
                    assert(num_line_at(bytes@, 3 * (DEC_WIDTH + 1), ((v.bot_roles.len() as u64)
                        as nat)));
                }
            }
            return None;
        },
        Some(x) => x,
    };
    let r5 = read_num_line(bytes, p5);
    let (pcount, p6) = match r5 {
        None => {
            proof {
                assert forall|v: ConfigV| v.valid() && bytes@ == spec_render(v) implies false by {
                    lemma_render_split(bytes@, v);
                    assert(num_line_at(bytes@, 3 * (DEC_WIDTH + 1), ((v.bot_roles.len() as u64)
                        as nat)));
                    assert(num_line_at(
                        bytes@,
                        4 * (DEC_WIDTH + 1) + spec_roles_sec(v.bot_roles).len(),
                        ((v.moderated_patterns.len() as u64) as nat),
                    ));
                }
            }
            return None;
        },
        Some(x) => x,
    };
    let mut pats: Vec<Vec<u8>> = Vec::new();
    let r6 = read_pats_into(bytes, p6, pcount, &mut pats);
    match r6 {
        None => {
            proof {
                assert forall|v: ConfigV| v.valid() && bytes@ == spec_render(v) implies false by {
                    lemma_render_split(bytes@, v);
                    assert(num_line_at(bytes@, 3 * (DEC_WIDTH + 1), ((v.bot_roles.len() as u64)
                        as nat)));
                    assert(num_line_at(
                        bytes@,
                        4 * (DEC_WIDTH + 1) + spec_roles_sec(v.bot_roles).len(),
                        ((v.moderated_patterns.len() as u64) as nat),
                    ));
                }
            }
            None
        },
        Some(_) => {
            let c = Config {
                text_detect_cooldown: cooldown,
                starboard_channel: channel,
                starboard_threshold: threshold,
                bot_roles: roles,
                moderated_patterns: pats,
            };
            proof {
                assert forall|v: ConfigV| v.valid() && bytes@ == spec_render(v) implies c@ == v by {
                    lemma_render_split(bytes@, v);
                    assert(num_line_at(bytes@, 3 * (DEC_WIDTH + 1), ((v.bot_roles.len() as u64)
                        as nat)));
                    assert(num_line_at(
                        bytes@,
                        4 * (DEC_WIDTH + 1) + spec_roles_sec(v.bot_roles).len(),
                        ((v.moderated_patterns.len() as u64) as nat),
                    ));
                    assert(c@.bot_roles =~= v.bot_roles);
                    assert(c@.moderated_patterns =~= v.moderated_patterns);
                }
            }
            Some(c)
        },
    }
}

/// Loads a configuration document. Returns the configuration exactly when
/// the document is the saved form of one — missing pieces, stray bytes, bad
/// digits and out-of-range numbers are all malformed — and that configuration
/// saves back to the very same document.
pub fn parse_config(bytes: &Vec<u8>) -> (r: Result<Config, ConfigLoadError>)
    ensures
        r matches Ok(c) ==> c@.valid() && bytes@ == spec_render(c@),
        forall|v: ConfigV| v.valid() && bytes@ == #[trigger] spec_render(v) ==> (r matches Ok(c)
            && c@ == v),
        r is Err ==> r == Err::<Config, ConfigLoadError>(ConfigLoadError::Malformed),
{
    match decode_config(bytes) {
        None => Err(ConfigLoadError::Malformed),
        Some(c) => {
            let rendered = render_config(&c);
            if bytes_eq(&rendered, bytes) {
                proof {
                    c.lemma_view_valid();
                }
                Ok(c)
            } else {
                Err(ConfigLoadError::Malformed)
            }
        },
    }
}

/// Saving a configuration and loading the saved document yields the
/// configuration back: load after save is the identity on configuration
/// values. Together with `parse_config`'s own contract — whatever loads
/// successfully saves back to the loaded document — loading a well-formed
/// document, saving it and loading again yields an equal configuration.
pub fn save_then_load(c: &Config) -> (r: Result<Config, ConfigLoadError>)
    ensures
        r matches Ok(c2) && c2@ == c@,
{
    let bytes = render_config(c);
    proof {
        c.lemma_view_valid();
    }
    parse_config(&bytes)
}

} // verus!
