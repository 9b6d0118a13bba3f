//! The recorder only moves or deletes files under the temporary directory.
//! Paths are read by components, as `Path::components` does on Unix (a
//! leading `/` is the root, empty pieces between slashes are dropped), then
//! `.` and `..` are resolved, and the directory's components must begin
//! the path's.

use vstd::prelude::*;
use vstd::string::StringSliceAdditionalSpecFns;

verus! {

/// Byte of `/`.
pub const SLASH: u8 = 0x2F;

/// Byte of `.`.
pub const DOT: u8 = 0x2E;

/// A piece between slashes that counts as a component: not empty, not `.`.
pub open spec fn counts(piece: Seq<u8>) -> bool {
    piece.len() > 0 && piece != seq![DOT]
}

/// The pieces found so far and the piece being read.
pub open spec fn split_state(b: Seq<u8>) -> (Seq<Seq<u8>>, Seq<u8>)
    decreases b.len(),
{
    if b.len() == 0 {
        (Seq::empty(), Seq::empty())
    } else {
        let (done, cur) = split_state(b.drop_last());
        if b.last() == SLASH {
            (if counts(cur) { done.push(cur) } else { done }, Seq::empty())
        } else {
            (done, cur.push(b.last()))
        }
    }
}

/// The named components of a path: its counting pieces between slashes.
pub open spec fn named_components(b: Seq<u8>) -> Seq<Seq<u8>> {
    let (done, cur) = split_state(b);
    if counts(cur) {
        done.push(cur)
    } else {
        done
    }
}

/// Whether the path starts at the root.
pub open spec fn has_root(b: Seq<u8>) -> bool {
    b.len() > 0 && b[0] == SLASH
}

/// Whether the path starts with a `.` component.
pub open spec fn has_cur_dir(b: Seq<u8>) -> bool {
    b.len() > 0 && b[0] == DOT && (b.len() == 1 || b[1] == SLASH)
}

/// The components of a path: the root as `/`, a leading `.`, then the named
/// ones.
pub open spec fn path_components(b: Seq<u8>) -> Seq<Seq<u8>> {
    (if has_root(b) {
        seq![seq![SLASH]]
    } else {
        Seq::empty()
    }) + (if has_cur_dir(b) {
        seq![seq![DOT]]
    } else {
        Seq::empty()
    }) + named_components(b)
}

/// A named component: neither the root, nor `.`, nor `..`.
pub open spec fn is_named(c: Seq<u8>) -> bool {
    c != seq![SLASH] && c != seq![DOT] && c != seq![DOT, DOT]
}

/// The components after one more, with `.` and `..` resolved: `.` stays
/// where it is, `..` drops the named component before it, goes no higher
/// than the root, and is kept when there is nothing to drop.
pub open spec fn resolve_step(acc: Seq<Seq<u8>>, c: Seq<u8>) -> Seq<Seq<u8>> {
    if c == seq![DOT] {
        acc
    } else if c == seq![DOT, DOT] {
        if acc.len() > 0 && is_named(acc.last()) {
            acc.drop_last()
        } else if acc.len() > 0 && acc.last() == seq![SLASH] {
            acc
        } else {
            acc.push(c)
        }
    } else {
        acc.push(c)
    }
}

/// Components with `.` and `..` resolved, in order.
pub open spec fn resolved(comps: Seq<Seq<u8>>) -> Seq<Seq<u8>>
    decreases comps.len(),
{
    if comps.len() == 0 {
        Seq::empty()
    } else {
        resolve_step(resolved(comps.drop_last()), comps.last())
    }
}

/// Whether `path` lies under `base`: once `.` and `..` are resolved in
/// both, the components of `base` begin those of `path`. Links are not
/// followed.
pub open spec fn path_under(path: Seq<u8>, base: Seq<u8>) -> bool {
    let p = resolved(path_components(path));
    let c = resolved(path_components(base));
    c.len() <= p.len() && p.take(c.len() as int) == c
}

/// The components of `b`, computed.
fn components(b: &[u8]) -> (out: Vec<Vec<u8>>)
    ensures
        out@.map_values(|v: Vec<u8>| v@) == path_components(b@),
{
    let n = b.len();
    let mut out: Vec<Vec<u8>> = Vec::new();
    let ghost root: Seq<Seq<u8>> = if has_root(b@) {
        seq![seq![SLASH]]
    } else {
        Seq::empty()
    };
    let ghost dot: Seq<Seq<u8>> = if has_cur_dir(b@) {
        seq![seq![DOT]]
    } else {
        Seq::empty()
    };
    if n > 0 && b[0] == SLASH {
        let v = vec![SLASH];
        assert(v@ =~= seq![SLASH]);
        out.push(v);
    }
    assert(out@.map_values(|v: Vec<u8>| v@) =~= root);
    if n > 0 && b[0] == DOT && (n == 1 || b[1] == SLASH) {
        let v = vec![DOT];
        assert(v@ =~= seq![DOT]);
        let ghost before = out@.map_values(|v: Vec<u8>| v@);
        out.push(v);
        assert(out@.map_values(|v: Vec<u8>| v@) =~= before.push(seq![DOT]));
    }
    let ghost head = out@.map_values(|v: Vec<u8>| v@);
    assert(head =~= root + dot);
    let mut cur: Vec<u8> = Vec::new();
    let mut i: usize = 0;
    assert(b@.take(0) =~= Seq::<u8>::empty());
    while i < n
        invariant
            n == b@.len(),
            i <= n,
            out@.map_values(|v: Vec<u8>| v@) == head + split_state(b@.take(i as int)).0,
            cur@ == split_state(b@.take(i as int)).1,
        decreases n - i,
    {
        assert(b@.take(i + 1).drop_last() =~= b@.take(i as int));
        assert(b@.take(i + 1).last() == b[i as int]);
        if b[i] == SLASH {
            if cur.len() > 0 && !(cur.len() == 1 && cur[0] == DOT) {
                assert(counts(cur@)) by {
                    if cur@ == seq![DOT] {
                        assert(cur@.len() == 1 && cur@[0] == DOT);
                    }
                }
                let ghost before = out@.map_values(|v: Vec<u8>| v@);
                out.push(cur);
                assert(out@.map_values(|v: Vec<u8>| v@) =~= before.push(split_state(
                    b@.take(i as int),
                ).1));
            } else {
                assert(!counts(cur@)) by {
                    if cur@.len() == 1 && cur@[0] == DOT {
                        assert(cur@ =~= seq![DOT]);
                    }
                }
            }
            cur = Vec::new();
        } else {
            cur.push(b[i]);
        }
        i = i + 1;
    }
    assert(b@.take(n as int) =~= b@);
    if cur.len() > 0 && !(cur.len() == 1 && cur[0] == DOT) {
        assert(counts(cur@)) by {
            if cur@ == seq![DOT] {
                assert(cur@.len() == 1 && cur@[0] == DOT);
            }
        }
        let ghost before = out@.map_values(|v: Vec<u8>| v@);
        out.push(cur);
        assert(out@.map_values(|v: Vec<u8>| v@) =~= before.push(split_state(b@).1));
    } else {
        assert(!counts(cur@)) by {
            if cur@.len() == 1 && cur@[0] == DOT {
                assert(cur@ =~= seq![DOT]);
            }
        }
    }
    out
}

/// Whether two byte buffers are equal.
fn same_bytes(a: &Vec<u8>, b: &Vec<u8>) -> (r: bool)
    ensures
        r == (a@ == b@),
{
    if a.len() != b.len() {
        return false;
    }
    let mut i: usize = 0;
    while i < a.len()
        invariant
            a@.len() == b@.len(),
            i <= a@.len(),
            forall|j: int| 0 <= j < i ==> a@[j] == b@[j],
        decreases a@.len() - i,
    {
        if a[i] != b[i] {
            return false;
        }
        i = i + 1;
    }
    assert(a@ =~= b@);
    true
}

/// Whether `c` is the one-byte component `b`.
fn is_single(c: &Vec<u8>, b: u8) -> (r: bool)
    ensures
        r == (c@ == seq![b]),
{
    let r = c.len() == 1 && c[0] == b;
    assert(r ==> c@ =~= seq![b]);
    r
}

/// Whether `c` is `..`.
fn is_parent(c: &Vec<u8>) -> (r: bool)
    ensures
        r == (c@ == seq![DOT, DOT]),
{
    let r = c.len() == 2 && c[0] == DOT && c[1] == DOT;
    assert(r ==> c@ =~= seq![DOT, DOT]);
    r
}

/// `comps` with `.` and `..` resolved.
fn resolve(comps: Vec<Vec<u8>>) -> (out: Vec<Vec<u8>>)
    ensures
        out@.map_values(|v: Vec<u8>| v@) == resolved(comps@.map_values(|v: Vec<u8>| v@)),
{
    let ghost cv = comps@.map_values(|v: Vec<u8>| v@);
    let mut out: Vec<Vec<u8>> = Vec::new();
    let n = comps.len();
    let mut i: usize = 0;
    assert(cv.take(0) =~= Seq::<Seq<u8>>::empty());
    assert(out@.map_values(|v: Vec<u8>| v@) =~= Seq::<Seq<u8>>::empty());
    while i < n
        invariant
            n == comps@.len(),
            cv == comps@.map_values(|v: Vec<u8>| v@),
            i <= n,
            out@.map_values(|v: Vec<u8>| v@) == resolved(cv.take(i as int)),
        decreases n - i,
    {
        let c = &comps[i];
        assert(cv.take(i + 1).drop_last() =~= cv.take(i as int));
        assert(cv.take(i + 1).last() == c@);
        let ghost acc = out@.map_values(|v: Vec<u8>| v@);
        if is_single(c, DOT) {
        } else if is_parent(c) {
            let m = out.len();
            if m > 0 && !is_single(&out[m - 1], SLASH) && !is_single(&out[m - 1], DOT)
                && !is_parent(&out[m - 1]) {
                assert(acc.last() == out@[m - 1]@);
                out.pop();
                assert(out@.map_values(|v: Vec<u8>| v@) =~= acc.drop_last());
            } else if m > 0 && is_single(&out[m - 1], SLASH) {
                assert(acc.last() == out@[m - 1]@);
            } else {
                if m > 0 {
                    assert(acc.last() == out@[m - 1]@);
                }
                let d = vec![DOT, DOT];
                assert(d@ =~= seq![DOT, DOT]);
                out.push(d);
                assert(out@.map_values(|v: Vec<u8>| v@) =~= acc.push(c@));
            }
        } else {
            let d = c.clone();
            assert(d@ == c@);
            out.push(d);
            assert(out@.map_values(|v: Vec<u8>| v@) =~= acc.push(c@));
        }
        i = i + 1;
    }
    assert(cv.take(n as int) =~= cv);
    out
}

/// Whether `path`, with `.` and `..` resolved, lies under `base`: a path
/// that climbs out of `base` through `..` does not.
pub fn path_within(path: &str, base: &str) -> (r: bool)
    ensures
        r == path_under(path.spec_bytes(), base.spec_bytes()),
{
    let pb = path.as_bytes();
    let cb = base.as_bytes();
    let p = resolve(components(pb));
    let c = resolve(components(cb));
    assert(pb@ == path.spec_bytes() && cb@ == base.spec_bytes());
    let ghost pv = p@.map_values(|v: Vec<u8>| v@);
    let ghost cv = c@.map_values(|v: Vec<u8>| v@);
    assert(pv.len() == p@.len() && cv.len() == c@.len());
    if c.len() > p.len() {
        return false;
    }
    let mut i: usize = 0;
    while i < c.len()
        invariant
            pv == p@.map_values(|v: Vec<u8>| v@),
            cv == c@.map_values(|v: Vec<u8>| v@),
            pv == resolved(path_components(path.spec_bytes())),
            cv == resolved(path_components(base.spec_bytes())),
            c@.len() <= p@.len(),
            i <= c@.len(),
            forall|j: int| 0 <= j < i ==> pv[j] == cv[j],
        decreases c@.len() - i,
    {
        assert(pv[i as int] == p@[i as int]@);
        assert(cv[i as int] == c@[i as int]@);
        if !same_bytes(&p[i], &c[i]) {
            assert(pv.take(cv.len() as int)[i as int] != cv[i as int]);
            return false;
        }
        i = i + 1;
    }
    assert(pv.take(cv.len() as int) =~= cv);
    true
}

/// The refusal to move a recording from outside the temporary directory.
pub open spec fn move_refused_message() -> Seq<char> {
    "refusing to move a file from outside the temp dir"@
}

/// The refusal to delete a file outside the temporary directory.
pub open spec fn delete_refused_message() -> Seq<char> {
    "refusing to delete a file outside the temp dir"@
}

/// A recording may be moved to where the user saves it only from under the
/// temporary directory.
pub fn check_movable(src: &str, temp_dir: &str) -> (r: Result<(), String>)
    ensures
        r is Ok <==> path_under(src.spec_bytes(), temp_dir.spec_bytes()),
        r matches Err(e) ==> e@ == move_refused_message(),
{
    if !path_within(src, temp_dir) {
        return Err("refusing to move a file from outside the temp dir".to_owned());
    }
    Ok(())
}

/// A discarded recording may be deleted only from under the temporary
/// directory.
pub fn check_deletable(path: &str, temp_dir: &str) -> (r: Result<(), String>)
    ensures
        r is Ok <==> path_under(path.spec_bytes(), temp_dir.spec_bytes()),
        r matches Err(e) ==> e@ == delete_refused_message(),
{
    if !path_within(path, temp_dir) {
        return Err("refusing to delete a file outside the temp dir".to_owned());
    }
    Ok(())
}

} // verus!
