//! Reader for the text mesh description.
//!
//! The input is a sequence of lines. A line whose first token is `v`
//! followed by exactly three decimal numbers adds a vertex; a line
//! whose first token is `f` followed by exactly three one-based vertex
//! references (each taken up to the first `/`) adds a face; every other
//! line is ignored. A number that does not fit the plain decimal form
//! accepted here, or a vertex beyond the coordinate range of the
//! library, aborts parsing with `ParseError::InvalidVertex`; a face
//! reference that is not a valid index of an already-read vertex aborts
//! with `ParseError::InvalidFaceIndex` rather than substituting a
//! default vertex.
//!
//! The whole grammar is stated over the input bytes by
//! `spec_parse_obj`, and `parse_obj` returns exactly what it says.

use vstd::prelude::*;
use vstd::string::StringSliceAdditionalSpecFns;
use crate::vector::{Vector3, Triangle3, WORLD_MAX, v3, t3_bounded, tri_bounded};

verus! {

/// Why a mesh description was refused.
#[derive(Clone, Copy, PartialEq, Eq, Structural, Debug)]
pub enum ParseError {
    /// A vertex line carried something other than three plain decimal
    /// numbers within the library's coordinate range.
    InvalidVertex,
    /// A face line referenced a vertex that does not exist.
    InvalidFaceIndex,
}

/// Token-separating whitespace: space, tab, carriage return.
pub open spec fn is_space(c: u8) -> bool {
    c == 32 || c == 9 || c == 13
}

/// An ASCII decimal digit.
pub open spec fn is_digit(c: u8) -> bool {
    48 <= c <= 57
}

/// Ten to the power `k`.
pub open spec fn spec_pow10(k: nat) -> int
    decreases k,
{
    if k == 0 {
        1
    } else {
        10 * spec_pow10((k - 1) as nat)
    }
}

/// Value of the decimal digits of `s` in `[i, j)`, accumulated onto
/// `acc`.
pub open spec fn dig_val(s: Seq<u8>, i: int, j: int, acc: int) -> int
    decreases j - i,
{
    if i >= j {
        acc
    } else {
        dig_val(s, i + 1, j, acc * 10 + (s[i] - 48))
    }
}

/// First position at or after `i` that does not hold a digit.
pub open spec fn digits_end(s: Seq<u8>, i: int) -> int
    decreases s.len() - i,
{
    if i < 0 || i >= s.len() || !is_digit(s[i]) {
        i
    } else {
        digits_end(s, i + 1)
    }
}

/// First position at or after `i` that holds a slash, or the end.
pub open spec fn slash_end(s: Seq<u8>, i: int) -> int
    decreases s.len() - i,
{
    if i < 0 || i >= s.len() || s[i] == 47 {
        i
    } else {
        slash_end(s, i + 1)
    }
}

/// The whitespace-separated tokens of `s` from position `i` on, with
/// the tokens already complete in `acc` and the token in progress in
/// `cur`.
pub open spec fn tokens_from(s: Seq<u8>, i: int, acc: Seq<Seq<u8>>, cur: Seq<u8>) -> Seq<Seq<u8>>
    decreases s.len() - i,
{
    if i < 0 || i >= s.len() {
        if cur.len() == 0 {
            acc
        } else {
            acc.push(cur)
        }
    } else if is_space(s[i]) {
        if cur.len() == 0 {
            tokens_from(s, i + 1, acc, Seq::empty())
        } else {
            tokens_from(s, i + 1, acc.push(cur), Seq::empty())
        }
    } else {
        tokens_from(s, i + 1, acc, cur.push(s[i]))
    }
}

/// The whitespace-separated tokens of one line.
pub open spec fn spec_tokens(s: Seq<u8>) -> Seq<Seq<u8>> {
    tokens_from(s, 0, Seq::empty(), Seq::empty())
}

/// The fixed-point value of one plain decimal token: an optional sign,
/// then digits with an optional point, the fractional part truncated
/// beyond ten digits and the whole refused beyond eight integer digits
/// or outside the library's coordinate range.
pub open spec fn spec_parse_fixed(tok: Seq<u8>) -> Option<int> {
    let len = tok.len() as int;
    let neg = len > 0 && tok[0] == 45;
    let i0: int = if len > 0 && (tok[0] == 45 || tok[0] == 43) {
        1
    } else {
        0
    };
    let ie = digits_end(tok, i0);
    let nd = ie - i0;
    if nd > 8 {
        None
    } else {
        let vi = dig_val(tok, i0, ie, 0);
        if ie == len {
            if nd == 0 {
                None
            } else {
                let mag = vi * 65536;
                if mag > WORLD_MAX as int {
                    None
                } else {
                    Some(
                        if neg {
                            -mag
                        } else {
                            mag
                        },
                    )
                }
            }
        } else if tok[ie] == 46 {
            let fe = digits_end(tok, ie + 1);
            if fe != len {
                None
            } else {
                let fd = fe - ie - 1;
                if nd == 0 && fd == 0 {
                    None
                } else {
                    let k = if fd < 10 {
                        fd
                    } else {
                        10
                    };
                    let vf = dig_val(tok, ie + 1, ie + 1 + k, 0);
                    let mag = vi * 65536 + (vf * 65536) / spec_pow10(k as nat);
                    if mag > WORLD_MAX as int {
                        None
                    } else {
                        Some(
                            if neg {
                                -mag
                            } else {
                                mag
                            },
                        )
                    }
                }
            }
        } else {
            None
        }
    }
}

/// The zero-based vertex index named by one face token: the digits up
/// to the first slash, one-based, refused at zero, beyond nine digits,
/// or beyond the number of vertices read so far.
pub open spec fn spec_parse_index(tok: Seq<u8>, vlen: int) -> Option<int> {
    let se = slash_end(tok, 0);
    if se == 0 || se > 9 || digits_end(tok, 0) != se {
        None
    } else {
        let v = dig_val(tok, 0, se, 0);
        if v == 0 || v > vlen {
            None
        } else {
            Some(v - 1)
        }
    }
}

/// The small powers of ten, by unfolding.
proof fn lemma_pow10_vals()
    ensures
        spec_pow10(8) == 100_000_000,
        spec_pow10(9) == 1_000_000_000,
        spec_pow10(10) == 10_000_000_000,
{
    assert(spec_pow10(0) == 1);
    assert(spec_pow10(1) == 10);
    assert(spec_pow10(2) == 100);
    assert(spec_pow10(3) == 1000);
    assert(spec_pow10(4) == 10000);
    assert(spec_pow10(5) == 100000);
    assert(spec_pow10(6) == 1000000);
    assert(spec_pow10(7) == 10000000);
    assert(spec_pow10(8) == 100000000);
    assert(spec_pow10(9) == 1000000000);
    assert(spec_pow10(10) == 10000000000);
}

/// Powers of ten do not shrink as the exponent grows.
proof fn lemma_pow10_mono(a: nat, b: nat)
    requires
        a <= b,
    ensures
        1 <= spec_pow10(a) <= spec_pow10(b),
    decreases b,
{
    if b == 0 {
    } else if a == b {
        lemma_pow10_mono(0, (b - 1) as nat);
    } else {
        lemma_pow10_mono(a, (b - 1) as nat);
    }
}

/// Everything before `digits_end` is a digit, and the scan stays within
/// the sequence.
proof fn lemma_digits_end_props(s: Seq<u8>, i: int)
    requires
        0 <= i <= s.len(),
    ensures
        i <= digits_end(s, i) <= s.len(),
        forall|k: int| i <= k < digits_end(s, i) ==> is_digit(#[trigger] s[k]),
    decreases s.len() - i,
{
    if i < s.len() && is_digit(s[i]) {
        lemma_digits_end_props(s, i + 1);
    }
}

/// Copy a byte range out of the input.
#[verifier::loop_isolation(false)]
fn copy_range(bytes: &[u8], a: usize, b: usize) -> (v: Vec<u8>)
    requires
        a <= b <= bytes@.len(),
    ensures
        v@ == bytes@.subrange(a as int, b as int),
{
    let mut v: Vec<u8> = Vec::new();
    let mut k = a;
    while k < b
        invariant
            a <= k <= b <= bytes@.len(),
            v@ == bytes@.subrange(a as int, k as int),
        decreases b - k,
    {
        v.push(bytes[k]);
        proof {
            assert(bytes@.subrange(a as int, k as int + 1) =~= bytes@.subrange(
                a as int,
                k as int,
            ).push(bytes@[k as int]));
        }
        k = k + 1;
    }
    v
}

/// Ten to the power `k`, executably.
#[verifier::loop_isolation(false)]
fn pow10_exec(k: usize) -> (r: u64)
    requires
        k <= 10,
    ensures
        r as int == spec_pow10(k as nat),
        1 <= r <= 10_000_000_000,
{
    let mut r: u64 = 1;
    let mut j: usize = 0;
    while j < k
        invariant
            j <= k <= 10,
            r as int == spec_pow10(j as nat),
            1 <= r,
            r as int <= spec_pow10(j as nat),
        decreases k - j,
    {
        proof {
            lemma_pow10_mono(j as nat, 10);
            lemma_pow10_mono((j + 1) as nat, 10);
            lemma_pow10_vals();
            assert(spec_pow10((j + 1) as nat) == 10 * spec_pow10(j as nat));
        }
        r = r * 10;
        j = j + 1;
    }
    proof {
        lemma_pow10_mono(k as nat, 10);
        lemma_pow10_vals();
    }
    r
}

/// Scan the digit run starting at `p`.
#[verifier::loop_isolation(false)]
fn scan_digits(tok: &Vec<u8>, p: usize) -> (e: usize)
    requires
        p <= tok@.len(),
    ensures
        e as int == digits_end(tok@, p as int),
        p <= e <= tok@.len(),
{
    let mut q = p;
    while q < tok.len() && 48 <= tok[q] && tok[q] <= 57
        invariant
            p <= q <= tok@.len(),
            digits_end(tok@, p as int) == digits_end(tok@, q as int),
        decreases tok@.len() - q,
    {
        q = q + 1;
    }
    q
}

/// Value of the digit run in `[ds, de)`, at most ten digits.
#[verifier::loop_isolation(false)]
fn digits_value(tok: &Vec<u8>, ds: usize, de: usize) -> (v: u64)
    requires
        ds <= de <= tok@.len(),
        de - ds <= 10,
        forall|k: int| ds as int <= k < de as int ==> is_digit(#[trigger] tok@[k]),
    ensures
        v as int == dig_val(tok@, ds as int, de as int, 0),
        (v as int) < spec_pow10((de - ds) as nat),
{
    let mut v: u64 = 0;
    let mut k = ds;
    while k < de
        invariant
            ds <= k <= de,
            dig_val(tok@, ds as int, de as int, 0) == dig_val(tok@, k as int, de as int, v as int),
            (v as int) < spec_pow10((k - ds) as nat),
        decreases de - k,
    {
        proof {
            lemma_pow10_mono((k - ds) as nat, 9);
            lemma_pow10_vals();
            assert(spec_pow10((k + 1 - ds) as nat) == 10 * spec_pow10((k - ds) as nat));
        }
        v = v * 10 + ((tok[k] - 48) as u64);
        k = k + 1;
    }
    proof {
        lemma_pow10_mono((de - ds) as nat, 10);
        lemma_pow10_vals();
    }
    v
}

/// Parse one decimal token to a fixed-point value, exactly as
/// `spec_parse_fixed` says.
#[verifier::loop_isolation(false)]
fn parse_fixed(tok: &Vec<u8>) -> (o: Option<i64>)
    ensures
        o is Some <==> spec_parse_fixed(tok@) is Some,
        o is Some ==> o->0 as int == spec_parse_fixed(tok@)->0,
        o is Some ==> -WORLD_MAX <= o->0 <= WORLD_MAX,
{
    let len = tok.len();
    let neg = len > 0 && tok[0] == 45;
    let i0: usize = if len > 0 && (tok[0] == 45 || tok[0] == 43) {
        1
    } else {
        0
    };
    let ie = scan_digits(tok, i0);
    let nd = ie - i0;
    if nd > 8 {
        return None;
    }
    proof {
        lemma_digits_end_props(tok@, i0 as int);
    }
    let vi = digits_value(tok, i0, ie);
    proof {
        lemma_pow10_mono((ie - i0) as nat, 8);
        lemma_pow10_vals();
    }
    if ie == len {
        if nd == 0 {
            return None;
        }
        let mag: u64 = vi * 65536;
        if mag > 0x100_0000_0000u64 {
            return None;
        }
        let m = mag as i64;
        if neg {
            Some(-m)
        } else {
            Some(m)
        }
    } else if tok[ie] == 46 {
        let fe = scan_digits(tok, ie + 1);
        if fe != len {
            return None;
        }
        let fd = fe - (ie + 1);
        if nd == 0 && fd == 0 {
            return None;
        }
        let k: usize = if fd < 10 {
            fd
        } else {
            10
        };
        proof {
            lemma_digits_end_props(tok@, ie as int + 1);
        }
        let vf = digits_value(tok, ie + 1, ie + 1 + k);
        let den = pow10_exec(k);
        let mag: u64 = vi * 65536 + (vf * 65536) / den;
        if mag > 0x100_0000_0000u64 {
            return None;
        }
        let m = mag as i64;
        if neg {
            Some(-m)
        } else {
            Some(m)
        }
    } else {
        None
    }
}

/// Parse one face token to a zero-based vertex index, exactly as
/// `spec_parse_index` says.
#[verifier::loop_isolation(false)]
fn parse_index(tok: &Vec<u8>, vlen: usize) -> (o: Option<usize>)
    ensures
        o is Some <==> spec_parse_index(tok@, vlen as int) is Some,
        o is Some ==> o->0 as int == spec_parse_index(tok@, vlen as int)->0,
        o is Some ==> o->0 < vlen,
{
    let mut se: usize = 0;
    while se < tok.len() && tok[se] != 47
        invariant
            se <= tok@.len(),
            slash_end(tok@, 0) == slash_end(tok@, se as int),
        decreases tok@.len() - se,
    {
        se = se + 1;
    }
    let de = scan_digits(tok, 0);
    if se == 0 || se > 9 || de != se {
        return None;
    }
    proof {
        lemma_digits_end_props(tok@, 0);
    }
    let v = digits_value(tok, 0, se);
    if v == 0 || v > vlen as u64 {
        return None;
    }
    Some((v as usize) - 1)
}


/// The sequences a token-range list stands for.
pub open spec fn toks_of(s: Seq<u8>, rs: Seq<(usize, usize)>) -> Seq<Seq<u8>> {
    rs.map(|k: int, r: (usize, usize)| s.subrange(r.0 as int, r.1 as int))
}

/// What one line does to the mesh state: a `v` line with three numbers
/// adds a vertex, an `f` line with three valid references adds a face,
/// anything else is ignored, and a malformed number or reference stops
/// parsing with the matching error.
pub open spec fn line_step(
    verts: Seq<Vector3>,
    tris: Seq<Triangle3>,
    line: Seq<u8>,
) -> Result<(Seq<Vector3>, Seq<Triangle3>), ParseError> {
    let toks = spec_tokens(line);
    if toks.len() == 4 && toks[0] == seq![118u8] {
        let o1 = spec_parse_fixed(toks[1]);
        let o2 = spec_parse_fixed(toks[2]);
        let o3 = spec_parse_fixed(toks[3]);
        if o1 is None || o2 is None || o3 is None {
            Err(ParseError::InvalidVertex)
        } else {
            Ok(
                (
                    verts.push(
                        Vector3 { x: o1->0 as i64, y: o2->0 as i64, z: o3->0 as i64 },
                    ),
                    tris,
                ),
            )
        }
    } else if toks.len() == 4 && toks[0] == seq![102u8] {
        let i1 = spec_parse_index(toks[1], verts.len() as int);
        let i2 = spec_parse_index(toks[2], verts.len() as int);
        let i3 = spec_parse_index(toks[3], verts.len() as int);
        if i1 is None || i2 is None || i3 is None {
            Err(ParseError::InvalidFaceIndex)
        } else {
            Ok((verts, tris.push(Triangle3 { a: verts[i1->0], b: verts[i2->0], c: verts[i3->0] })))
        }
    } else {
        Ok((verts, tris))
    }
}

/// Fold `line_step` over the input from position `i` on, with the
/// current line collected so far in `cur`.
pub open spec fn parse_from(
    s: Seq<u8>,
    i: int,
    verts: Seq<Vector3>,
    tris: Seq<Triangle3>,
    cur: Seq<u8>,
) -> Result<(Seq<Vector3>, Seq<Triangle3>), ParseError>
    decreases s.len() - i,
{
    if i < 0 || i >= s.len() {
        line_step(verts, tris, cur)
    } else if s[i] == 10 {
        match line_step(verts, tris, cur) {
            Ok(st) => parse_from(s, i + 1, st.0, st.1, Seq::empty()),
            Err(e) => Err(e),
        }
    } else {
        parse_from(s, i + 1, verts, tris, cur.push(s[i]))
    }
}

/// The faces a mesh description denotes, or the error that aborts it.
pub open spec fn spec_parse_obj(s: Seq<u8>) -> Result<Seq<Triangle3>, ParseError> {
    match parse_from(s, 0, Seq::empty(), Seq::empty(), Seq::empty()) {
        Ok(st) => Ok(st.1),
        Err(e) => Err(e),
    }
}

/// Apply one line of the input to the mesh state, exactly as
/// `line_step` says.
#[verifier::loop_isolation(false)]
#[verifier::rlimit(60)]
fn process_line(
    bytes: &[u8],
    lo: usize,
    hi: usize,
    vertices: &mut Vec<Vector3>,
    triangles: &mut Vec<Triangle3>,
) -> (r: Result<(), ParseError>)
    requires
        lo <= hi <= bytes@.len(),
        forall|n: int|
            0 <= n < old(vertices)@.len() ==> t3_bounded(
                v3(#[trigger] old(vertices)@[n]),
                WORLD_MAX as int,
            ),
        forall|n: int|
            0 <= n < old(triangles)@.len() ==> tri_bounded(
                #[trigger] old(triangles)@[n],
                WORLD_MAX as int,
            ),
    ensures
        (match line_step(old(vertices)@, old(triangles)@, bytes@.subrange(lo as int, hi as int)) {
            Ok(st) => r == Ok::<(), ParseError>(()) && final(vertices)@ == st.0
                && final(triangles)@ == st.1,
            Err(e) => r == Err::<(), ParseError>(e),
        }),
        forall|n: int|
            0 <= n < final(vertices)@.len() ==> t3_bounded(
                v3(#[trigger] final(vertices)@[n]),
                WORLD_MAX as int,
            ),
        forall|n: int|
            0 <= n < final(triangles)@.len() ==> tri_bounded(
                #[trigger] final(triangles)@[n],
                WORLD_MAX as int,
            ),
{
    let ghost line = bytes@.subrange(lo as int, hi as int);
    let mut rs: Vec<(usize, usize)> = Vec::new();
    proof {
        assert(toks_of(bytes@, Seq::<(usize, usize)>::empty()) =~= Seq::<Seq<u8>>::empty());
    }
    let mut ts: usize = lo;
    let mut in_tok = false;
    let mut j = lo;
    while j < hi
        invariant
            lo <= j <= hi,
            in_tok ==> lo <= ts < j,
            forall|k: int| 0 <= k < rs@.len() ==> lo <= (#[trigger] rs@[k]).0 < rs@[k].1 <= hi,
            spec_tokens(line) == tokens_from(
                line,
                j - lo,
                toks_of(bytes@, rs@),
                if in_tok {
                    bytes@.subrange(ts as int, j as int)
                } else {
                    Seq::empty()
                },
            ),
        decreases hi - j,
    {
        let ghost rs_pre = rs@;
        let c = bytes[j];
        proof {
            assert(line[j - lo] == bytes@[j as int]);
        }
        if c == 32 || c == 9 || c == 13 {
            if in_tok {
                rs.push((ts, j));
                in_tok = false;
                proof {
                    assert(toks_of(bytes@, rs@) =~= toks_of(bytes@, rs_pre).push(
                        bytes@.subrange(ts as int, j as int),
                    ));
                }
            }
        } else {
            if !in_tok {
                ts = j;
                in_tok = true;
                proof {
                    assert(bytes@.subrange(j as int, j as int) =~= Seq::<u8>::empty());
                    assert(bytes@.subrange(j as int, j as int + 1) =~= Seq::<u8>::empty().push(
                        line[j - lo],
                    ));
                }
            } else {
                proof {
                    assert(bytes@.subrange(ts as int, j as int + 1) =~= bytes@.subrange(
                        ts as int,
                        j as int,
                    ).push(line[j - lo]));
                }
            }
        }
        j = j + 1;
    }
    if in_tok {
        let ghost rs_pre = rs@;
        rs.push((ts, hi));
        proof {
            assert(toks_of(bytes@, rs@) =~= toks_of(bytes@, rs_pre).push(
                bytes@.subrange(ts as int, hi as int),
            ));
        }
    }
    proof {
        assert(spec_tokens(line) == toks_of(bytes@, rs@));
    }
    let ghost toks = spec_tokens(line);
    if rs.len() != 4 {
        return Ok(());
    }
    let r0 = rs[0];
    let r1 = rs[1];
    let r2 = rs[2];
    let r3 = rs[3];
    proof {
        assert(toks[0] == bytes@.subrange(r0.0 as int, r0.1 as int));
        assert(toks[1] == bytes@.subrange(r1.0 as int, r1.1 as int));
        assert(toks[2] == bytes@.subrange(r2.0 as int, r2.1 as int));
        assert(toks[3] == bytes@.subrange(r3.0 as int, r3.1 as int));
    }
    if r0.1 - r0.0 == 1 && bytes[r0.0] == 118 {
        proof {
            assert(toks[0] =~= seq![118u8]);
        }
        let t1 = copy_range(bytes, r1.0, r1.1);
        let t2 = copy_range(bytes, r2.0, r2.1);
        let t3 = copy_range(bytes, r3.0, r3.1);
        let o1 = parse_fixed(&t1);
        let o2 = parse_fixed(&t2);
        let o3 = parse_fixed(&t3);
        match (o1, o2, o3) {
            (Some(x), Some(y), Some(z)) => {
                vertices.push(Vector3 { x, y, z });
                Ok(())
            },
            _ => Err(ParseError::InvalidVertex),
        }
    } else if r0.1 - r0.0 == 1 && bytes[r0.0] == 102 {
        proof {
            assert(toks[0] =~= seq![102u8]);
            assert(seq![118u8].len() == 1 && seq![118u8][0] == 118u8);
            assert(!(toks[0] == seq![118u8]));
        }
        let t1 = copy_range(bytes, r1.0, r1.1);
        let t2 = copy_range(bytes, r2.0, r2.1);
        let t3 = copy_range(bytes, r3.0, r3.1);
        let o1 = parse_index(&t1, vertices.len());
        let o2 = parse_index(&t2, vertices.len());
        let o3 = parse_index(&t3, vertices.len());
        match (o1, o2, o3) {
            (Some(i1), Some(i2), Some(i3)) => {
                let va = vertices[i1];
                let vb = vertices[i2];
                let vc = vertices[i3];
                triangles.push(Triangle3 { a: va, b: vb, c: vc });
                Ok(())
            },
            _ => Err(ParseError::InvalidFaceIndex),
        }
    } else {
        proof {
            if toks[0].len() == 1 {
                assert(toks[0][0] != 118 && toks[0][0] != 102);
            }
            assert(seq![118u8].len() == 1 && seq![118u8][0] == 118u8);
            assert(seq![102u8].len() == 1 && seq![102u8][0] == 102u8);
            assert(!(toks[0] == seq![118u8]));
            assert(!(toks[0] == seq![102u8]));
        }
        Ok(())
    }
}

/// Read a mesh description into its list of faces.
///
/// The result is exactly what `spec_parse_obj` says of the input bytes,
/// and every vertex of every returned face lies within the library's
/// coordinate range.
#[verifier::loop_isolation(false)]
pub fn parse_obj(obj_data: &str) -> (r: Result<Vec<Triangle3>, ParseError>)
    ensures
        (match spec_parse_obj(obj_data.spec_bytes()) {
            Ok(ts) => r matches Ok(v) && v@ == ts,
            Err(e) => r == Err::<Vec<Triangle3>, ParseError>(e),
        }),
        r matches Ok(v) ==> forall|n: int|
            0 <= n < v@.len() ==> tri_bounded(#[trigger] v@[n], WORLD_MAX as int),
{
    let bytes: &[u8] = obj_data.as_bytes();
    let n = bytes.len();
    let mut vertices: Vec<Vector3> = Vec::new();
    let mut triangles: Vec<Triangle3> = Vec::new();
    let mut ls: usize = 0;
    let mut i: usize = 0;
    proof {
        assert(bytes@.subrange(0, 0) =~= Seq::<u8>::empty());
    }
    while i < n
        invariant
            ls <= i <= n,
            n == bytes@.len(),
            forall|m: int|
                0 <= m < vertices@.len() ==> t3_bounded(
                    v3(#[trigger] vertices@[m]),
                    WORLD_MAX as int,
                ),
            forall|m: int|
                0 <= m < triangles@.len() ==> tri_bounded(
                    #[trigger] triangles@[m],
                    WORLD_MAX as int,
                ),
            parse_from(bytes@, 0, Seq::empty(), Seq::empty(), Seq::empty()) == parse_from(
                bytes@,
                i as int,
                vertices@,
                triangles@,
                bytes@.subrange(ls as int, i as int),
            ),
        decreases n - i,
    {
        let ghost vpre = vertices@;
        let ghost tpre = triangles@;
        if bytes[i] == 10 {
            let st = process_line(bytes, ls, i, &mut vertices, &mut triangles);
            match st {
                Err(e) => {
                    proof {
                        assert(parse_from(
                            bytes@,
                            i as int,
                            vpre,
                            tpre,
                            bytes@.subrange(ls as int, i as int),
                        ) is Err);
                    }
                    return Err(e);
                },
                Ok(()) => {},
            }
            proof {
                assert(bytes@.subrange(i as int + 1, i as int + 1) =~= Seq::<u8>::empty());
            }
            ls = i + 1;
        } else {
            proof {
                assert(bytes@.subrange(ls as int, i as int + 1) =~= bytes@.subrange(
                    ls as int,
                    i as int,
                ).push(bytes@[i as int]));
            }
        }
        i = i + 1;
    }
    let ghost vpre = vertices@;
    let ghost tpre = triangles@;
    let st = process_line(bytes, ls, n, &mut vertices, &mut triangles);
    match st {
        Err(e) => {
            proof {
                assert(parse_from(bytes@, n as int, vpre, tpre, bytes@.subrange(ls as int, n as int))
                    is Err);
            }
            Err(e)
        },
        Ok(()) => Ok(triangles),
    }
}

} // verus!
