//! Entry-name sanitization.
//!
//! An archive entry name is an untrusted byte string.  It is split at
//! `/` separators and the components are resolved against a virtual
//! root: `.` and empty components are dropped, `..` steps up one level.
//! A name that is absolute, escapes the root, or resolves to nothing
//! is rejected, and so is one holding a byte that is not portably part
//! of a file name — NUL, a backslash (a separator on Windows hosts),
//! or a colon (a drive-prefix marker there); everything else yields a
//! safe relative path.

use vstd::prelude::*;

verus! {

/// Byte value of `/`, the separator inside archive entry names.
pub const SLASH: u8 = 47;

/// Byte value of `.`.
pub const DOT: u8 = 46;

/// Byte value of `\`, the separator on Windows hosts.
pub const BACKSLASH: u8 = 92;

/// Byte value of `:`, the drive-prefix marker on Windows hosts.
pub const COLON: u8 = 58;

/// The components of `s`, split at every separator byte.
pub open spec fn split_path(s: Seq<u8>) -> Seq<Seq<u8>>
    decreases s.len(),
{
    if s.len() == 0 {
        seq![Seq::<u8>::empty()]
    } else {
        let rest = split_path(s.drop_first());
        if s.first() == SLASH {
            seq![Seq::<u8>::empty()] + rest
        } else {
            seq![seq![s.first()] + rest.first()] + rest.drop_first()
        }
    }
}

/// Resolution of `comps` against a virtual root, starting from the
/// already-resolved `stack`.  Empty and `.` components are dropped,
/// `..` pops one resolved component; popping past the root fails.
pub open spec fn resolve_from(comps: Seq<Seq<u8>>, stack: Seq<Seq<u8>>) -> Option<Seq<Seq<u8>>>
    decreases comps.len(),
{
    if comps.len() == 0 {
        Some(stack)
    } else {
        let c = comps.first();
        if c.len() == 0 || c == seq![DOT] {
            resolve_from(comps.drop_first(), stack)
        } else if c == seq![DOT, DOT] {
            if stack.len() == 0 {
                None
            } else {
                resolve_from(comps.drop_first(), stack.drop_last())
            }
        } else {
            resolve_from(comps.drop_first(), stack.push(c))
        }
    }
}

/// The resolved components of a safe entry name, or `None` for a name
/// that is empty, absolute, escapes the virtual root, resolves to no
/// component at all, or holds a byte with no portable place in a file
/// name: NUL, a backslash, or a colon (a separator and a drive-prefix
/// marker on Windows hosts, where they could carry a write outside the
/// extraction root).
pub open spec fn safe_components(name: Seq<u8>) -> Option<Seq<Seq<u8>>> {
    if name.len() == 0 || name.first() == SLASH || name.contains(0u8) || name.contains(BACKSLASH)
        || name.contains(COLON) {
        None
    } else {
        match resolve_from(split_path(name), Seq::<Seq<u8>>::empty()) {
            Some(stack) => if stack.len() == 0 {
                None
            } else {
                Some(stack)
            },
            None => None,
        }
    }
}

/// The components joined back into a relative path, separated by `/`.
pub open spec fn join_path(comps: Seq<Seq<u8>>) -> Seq<u8>
    decreases comps.len(),
{
    if comps.len() == 0 {
        Seq::<u8>::empty()
    } else if comps.len() == 1 {
        comps.first()
    } else {
        comps.first() + seq![SLASH] + join_path(comps.drop_first())
    }
}

/// The joined parent path of a resolved component list, or `None` when
/// the path has no parent below the extraction root.
pub open spec fn parent_path_of(comps: Seq<Seq<u8>>) -> Option<Seq<u8>> {
    if comps.len() <= 1 {
        None
    } else {
        Some(join_path(comps.drop_last()))
    }
}

/// The safe relative path derived from an entry name, if any.
pub open spec fn sanitized_path(name: Seq<u8>) -> Option<Seq<u8>> {
    match safe_components(name) {
        Some(cs) => Some(join_path(cs)),
        None => None,
    }
}

/// A byte that may stand inside a path component: not a separator on
/// any supported host, not a drive-prefix marker, not NUL.
pub open spec fn portable_byte(b: u8) -> bool {
    b != SLASH && b != BACKSLASH && b != COLON && b != 0
}

/// A path component that steps neither up, nor out, nor nowhere:
/// non-empty, not `.`, not `..`, and made of portable bytes only.
pub open spec fn clean_component(c: Seq<u8>) -> bool {
    &&& c.len() > 0
    &&& c != seq![DOT]
    &&& c != seq![DOT, DOT]
    &&& forall|k: int| 0 <= k < c.len() ==> portable_byte(#[trigger] c[k])
}

pub proof fn lemma_split_nonempty(s: Seq<u8>)
    ensures
        split_path(s).len() >= 1,
    decreases s.len(),
{
    if s.len() > 0 {
        lemma_split_nonempty(s.drop_first());
    }
}

proof fn lemma_drop_first_excludes(s: Seq<u8>, b: u8)
    requires
        s.len() > 0,
        !s.contains(b),
    ensures
        !s.drop_first().contains(b),
{
    if s.drop_first().contains(b) {
        let i = choose|i: int| 0 <= i < s.drop_first().len() && s.drop_first()[i] == b;
        assert(s[i + 1] == b);
    }
}

pub proof fn lemma_split_components_portable(s: Seq<u8>)
    requires
        !s.contains(0u8),
        !s.contains(BACKSLASH),
        !s.contains(COLON),
    ensures
        forall|j: int, k: int|
            0 <= j < split_path(s).len() && 0 <= k < split_path(s)[j].len()
                ==> portable_byte(#[trigger] split_path(s)[j][k]),
    decreases s.len(),
{
    if s.len() > 0 {
        let rest = split_path(s.drop_first());
        lemma_drop_first_excludes(s, 0u8);
        lemma_drop_first_excludes(s, BACKSLASH);
        lemma_drop_first_excludes(s, COLON);
        lemma_split_components_portable(s.drop_first());
        lemma_split_nonempty(s.drop_first());
        if s.first() == SLASH {
            assert forall|j: int, k: int|
                0 <= j < split_path(s).len() && 0 <= k < split_path(s)[j].len()
                    implies portable_byte(#[trigger] split_path(s)[j][k]) by {
                if j > 0 {
                    assert(split_path(s)[j] == rest[j - 1]);
                }
            }
        } else {
            assert(portable_byte(s.first())) by {
                assert(s[0] == s.first());
                if s.first() == 0 {
                    assert(s.contains(0u8));
                }
                if s.first() == BACKSLASH {
                    assert(s.contains(BACKSLASH));
                }
                if s.first() == COLON {
                    assert(s.contains(COLON));
                }
            }
            assert forall|j: int, k: int|
                0 <= j < split_path(s).len() && 0 <= k < split_path(s)[j].len()
                    implies portable_byte(#[trigger] split_path(s)[j][k]) by {
                if j == 0 {
                    assert(split_path(s)[0] == seq![s.first()] + rest.first());
                    if k > 0 {
                        assert(split_path(s)[0][k] == rest[0][k - 1]);
                    }
                } else {
                    assert(split_path(s)[j] == rest.drop_first()[j - 1]);
                    assert(rest.drop_first()[j - 1] == rest[j]);
                }
            }
        }
    }
}

pub proof fn lemma_resolve_clean(comps: Seq<Seq<u8>>, stack: Seq<Seq<u8>>)
    requires
        forall|j: int, k: int|
            0 <= j < comps.len() && 0 <= k < comps[j].len() ==> portable_byte(
                #[trigger] comps[j][k],
            ),
        forall|j: int| 0 <= j < stack.len() ==> clean_component(#[trigger] stack[j]),
    ensures
        resolve_from(comps, stack) matches Some(st) ==> forall|j: int|
            0 <= j < st.len() ==> clean_component(#[trigger] st[j]),
    decreases comps.len(),
{
    if comps.len() > 0 {
        let c = comps.first();
        assert forall|j: int, k: int|
            0 <= j < comps.drop_first().len() && 0 <= k < comps.drop_first()[j].len()
                implies portable_byte(#[trigger] comps.drop_first()[j][k]) by {
            assert(comps.drop_first()[j] == comps[j + 1]);
        }
        if c.len() == 0 || c == seq![DOT] {
            lemma_resolve_clean(comps.drop_first(), stack);
        } else if c == seq![DOT, DOT] {
            if stack.len() > 0 {
                assert forall|j: int| 0 <= j < stack.drop_last().len()
                    implies clean_component(#[trigger] stack.drop_last()[j]) by {
                    assert(stack.drop_last()[j] == stack[j]);
                }
                lemma_resolve_clean(comps.drop_first(), stack.drop_last());
            }
        } else {
            assert(clean_component(c)) by {
                assert(forall|k: int| 0 <= k < c.len() ==> portable_byte(#[trigger] c[k])) by {
                    assert(forall|k: int|
                        0 <= k < comps[0].len() ==> portable_byte(#[trigger] comps[0][k]));
                }
            }
            assert forall|j: int| 0 <= j < stack.push(c).len()
                implies clean_component(#[trigger] stack.push(c)[j]) by {
                if j < stack.len() {
                    assert(stack.push(c)[j] == stack[j]);
                }
            }
            lemma_resolve_clean(comps.drop_first(), stack.push(c));
        }
    }
}

/// A name accepted by the safety filter resolves to at least one
/// component, and every component is clean: non-empty, not `.` or
/// `..`, and made only of bytes that are no separator on any supported
/// host, no drive-prefix marker, and no NUL.  Joined below the
/// extraction root, such components cannot name anything outside it.
pub proof fn lemma_safe_components_clean(name: Seq<u8>)
    ensures
        safe_components(name) matches Some(cs) ==> cs.len() >= 1 && (forall|j: int|
            0 <= j < cs.len() ==> clean_component(#[trigger] cs[j])),
{
    if safe_components(name) is Some {
        lemma_split_components_portable(name);
        lemma_resolve_clean(split_path(name), Seq::<Seq<u8>>::empty());
    }
}

/// Appends all of `s` to `out`.
pub fn push_all(out: &mut Vec<u8>, s: &Vec<u8>)
    ensures
        final(out)@ == old(out)@ + s@,
{
    let mut k: usize = 0;
    while k < s.len()
        invariant
            k <= s.len(),
            out@ == old(out)@ + s@.take(k as int),
        decreases s.len() - k,
    {
        out.push(s[k]);
        proof {
            assert(s@.take(k + 1) =~= s@.take(k as int).push(s@[k as int]));
            assert(old(out)@ + s@.take(k + 1) =~= (old(out)@ + s@.take(k as int)).push(
                s@[k as int],
            ));
        }
        k += 1;
    }
    proof {
        assert(s@.take(s@.len() as int) =~= s@);
    }
}

/// A fresh copy of a byte vector.
pub fn copy_bytes(v: &Vec<u8>) -> (r: Vec<u8>)
    ensures
        r@ == v@,
{
    let mut out: Vec<u8> = Vec::new();
    push_all(&mut out, v);
    proof {
        assert(out@ =~= v@);
    }
    out
}

/// The shape of the split of a partially scanned name: the components
/// already finished, the one being collected, and the split of what
/// remains.
spec fn splice(done: Seq<Seq<u8>>, cur: Seq<u8>, rest: Seq<Seq<u8>>) -> Seq<Seq<u8>> {
    done + seq![cur + rest.first()] + rest.drop_first()
}

/// Splits `name` at every separator byte.
fn split_components(name: &Vec<u8>) -> (r: Vec<Vec<u8>>)
    ensures
        r.deep_view() == split_path(name@),
{
    let mut comps: Vec<Vec<u8>> = Vec::new();
    let mut cur: Vec<u8> = Vec::new();
    let mut i: usize = 0;
    proof {
        lemma_split_nonempty(name@);
        assert(name@.skip(0) =~= name@);
        assert(splice(comps.deep_view(), cur@, split_path(name@)) =~~= split_path(name@)) by {
            assert(seq![split_path(name@).first()] + split_path(name@).drop_first() =~~=
                split_path(name@));
        }
    }
    while i < name.len()
        invariant
            i <= name@.len(),
            splice(comps.deep_view(), cur@, split_path(name@.skip(i as int))) == split_path(
                name@,
            ),
        decreases name@.len() - i,
    {
        let ghost s_i = name@.skip(i as int);
        let ghost s_i1 = name@.skip(i as int + 1);
        let ghost sp1 = split_path(s_i1);
        proof {
            assert(s_i.len() > 0);
            assert(s_i.first() == name@[i as int]);
            assert(s_i.drop_first() =~= s_i1);
            lemma_split_nonempty(s_i1);
        }
        let ghost old_comps = comps.deep_view();
        let ghost old_cur = cur@;
        if name[i] == SLASH {
            proof {
                assert(split_path(s_i) == seq![Seq::<u8>::empty()] + sp1);
            }
            comps.push(cur);
            cur = Vec::new();
            proof {
                assert(comps.deep_view() =~~= old_comps.push(old_cur));
                assert((seq![Seq::<u8>::empty()] + sp1).first() == Seq::<u8>::empty());
                assert((seq![Seq::<u8>::empty()] + sp1).drop_first() =~~= sp1);
                assert(splice(comps.deep_view(), cur@, sp1) =~~= splice(
                    old_comps,
                    old_cur,
                    seq![Seq::<u8>::empty()] + sp1,
                )) by {
                    assert(old_cur + Seq::<u8>::empty() =~= old_cur);
                    assert(seq![sp1.first()] + sp1.drop_first() =~~= sp1);
                }
            }
        } else {
            proof {
                assert(split_path(s_i) == seq![seq![s_i.first()] + sp1.first()]
                    + sp1.drop_first());
            }
            let b = name[i];
            cur.push(b);
            proof {
                assert(cur@ == old_cur.push(b));
                assert(splice(comps.deep_view(), cur@, sp1) =~~= splice(
                    old_comps,
                    old_cur,
                    split_path(s_i),
                )) by {
                    assert(split_path(s_i).first() == seq![s_i.first()] + sp1.first());
                    assert(split_path(s_i).drop_first() =~~= sp1.drop_first());
                    assert(old_cur.push(b) + sp1.first() =~= old_cur + (seq![b] + sp1.first()));
                }
            }
        }
        i += 1;
    }
    proof {
        assert(name@.skip(name@.len() as int) =~= Seq::<u8>::empty());
        assert(split_path(Seq::<u8>::empty()) == seq![Seq::<u8>::empty()]);
    }
    let ghost old_comps = comps.deep_view();
    let ghost old_cur = cur@;
    comps.push(cur);
    proof {
        assert(comps.deep_view() =~~= old_comps.push(old_cur));
        assert(split_path(name@) =~~= old_comps.push(old_cur)) by {
            assert(splice(old_comps, old_cur, seq![Seq::<u8>::empty()]) == split_path(name@));
            assert(seq![Seq::<u8>::empty()].drop_first() =~~= Seq::<Seq<u8>>::empty());
            assert(old_cur + Seq::<u8>::empty() =~= old_cur);
            assert(old_comps + seq![old_cur] + Seq::<Seq<u8>>::empty() =~~= old_comps.push(
                old_cur,
            ));
        }
    }
    comps
}

/// Resolves an entry name into safe components, or `None` when the
/// safety filter rejects the name.
pub fn sanitize_components(name: &Vec<u8>) -> (r: Option<Vec<Vec<u8>>>)
    ensures
        match r {
            Some(cs) => safe_components(name@) == Some(cs.deep_view()) && cs@.len() >= 1,
            None => safe_components(name@) is None,
        },
{
    if name.len() == 0 {
        return None;
    }
    if name[0] == SLASH {
        proof {
            assert(name@.first() == SLASH);
        }
        return None;
    }
    let mut t: usize = 0;
    while t < name.len()
        invariant
            t <= name@.len(),
            forall|q: int|
                0 <= q < t ==> name@[q] != 0 && name@[q] != BACKSLASH && name@[q] != COLON,
        decreases name@.len() - t,
    {
        let bt = name[t];
        if bt == 0 || bt == BACKSLASH || bt == COLON {
            proof {
                if bt == 0 {
                    assert(name@.contains(0u8));
                }
                if bt == BACKSLASH {
                    assert(name@.contains(BACKSLASH));
                }
                if bt == COLON {
                    assert(name@.contains(COLON));
                }
            }
            return None;
        }
        t += 1;
    }
    proof {
        assert(!name@.contains(0u8));
        assert(!name@.contains(BACKSLASH));
        assert(!name@.contains(COLON));
    }
    let comps = split_components(name);
    let mut stack: Vec<Vec<u8>> = Vec::new();
    let mut j: usize = 0;
    proof {
        assert(comps.deep_view().skip(0) =~~= comps.deep_view());
        assert(stack.deep_view() =~~= Seq::<Seq<u8>>::empty());
    }
    while j < comps.len()
        invariant
            j <= comps@.len(),
            comps.deep_view() == split_path(name@),
            resolve_from(split_path(name@), Seq::<Seq<u8>>::empty()) == resolve_from(
                comps.deep_view().skip(j as int),
                stack.deep_view(),
            ),
        decreases comps@.len() - j,
    {
        let ghost rest = comps.deep_view().skip(j as int);
        let ghost c = comps.deep_view()[j as int];
        proof {
            assert(rest.len() > 0);
            assert(rest.first() == c);
            assert(rest.drop_first() =~~= comps.deep_view().skip(j as int + 1));
            assert(c =~= comps@[j as int]@);
        }
        let is_empty = comps[j].len() == 0;
        let is_dot = comps[j].len() == 1 && comps[j][0] == DOT;
        let is_dotdot = comps[j].len() == 2 && comps[j][0] == DOT && comps[j][1] == DOT;
        proof {
            // The byte tests above decide equality with the literal
            // component forms, in both directions.
            if is_dot {
                assert(c =~= seq![DOT]);
            }
            if is_dotdot {
                assert(c =~= seq![DOT, DOT]);
            }
            if !is_dot && c == seq![DOT] {
                assert(comps@[j as int]@.len() == 1 && comps@[j as int]@[0] == DOT);
            }
            if !is_dotdot && c == seq![DOT, DOT] {
                assert(comps@[j as int]@.len() == 2 && comps@[j as int]@[0] == DOT
                    && comps@[j as int]@[1] == DOT);
            }
        }
        if is_empty || is_dot {
            // dropped component
        } else if is_dotdot {
            if stack.len() == 0 {
                proof {
                    assert(stack.deep_view().len() == 0);
                    assert(resolve_from(rest, stack.deep_view()) is None);
                }
                return None;
            }
            let ghost old_stack = stack.deep_view();
            let _ = stack.pop();
            proof {
                assert(stack.deep_view() =~~= old_stack.drop_last());
            }
        } else {
            let ghost old_stack = stack.deep_view();
            let piece = copy_bytes(&comps[j]);
            stack.push(piece);
            proof {
                assert(stack.deep_view() =~~= old_stack.push(c));
            }
        }
        j += 1;
    }
    proof {
        assert(comps.deep_view().skip(comps@.len() as int) =~~= Seq::<Seq<u8>>::empty());
        assert(resolve_from(split_path(name@), Seq::<Seq<u8>>::empty()) == Some(
            stack.deep_view(),
        ));
    }
    if stack.len() == 0 {
        proof {
            assert(stack.deep_view().len() == 0);
        }
        return None;
    }
    Some(stack)
}

pub proof fn lemma_join_push(cs: Seq<Seq<u8>>, c: Seq<u8>)
    ensures
        join_path(cs.push(c)) == if cs.len() == 0 {
            c
        } else {
            join_path(cs) + seq![SLASH] + c
        },
    decreases cs.len(),
{
    if cs.len() == 0 {
        assert(cs.push(c) =~~= seq![c]);
        assert(join_path(seq![c]) == c);
    } else if cs.len() == 1 {
        assert(cs.push(c).first() == cs[0]);
        assert(cs.push(c).drop_first() =~~= seq![c]);
        assert(join_path(seq![c]) == c);
        assert(join_path(cs.push(c)) == cs[0] + seq![SLASH] + c);
    } else {
        lemma_join_push(cs.drop_first(), c);
        assert(cs.push(c).drop_first() =~~= cs.drop_first().push(c));
        assert(cs.push(c).first() == cs.first());
        assert(join_path(cs.push(c)) =~= join_path(cs) + seq![SLASH] + c);
    }
}

/// Joins the first `k` components with separators.
pub fn join_prefix(comps: &Vec<Vec<u8>>, k: usize) -> (r: Vec<u8>)
    requires
        k <= comps@.len(),
    ensures
        r@ == join_path(comps.deep_view().take(k as int)),
{
    let mut out: Vec<u8> = Vec::new();
    let mut j: usize = 0;
    proof {
        assert(comps.deep_view().take(0) =~~= Seq::<Seq<u8>>::empty());
    }
    while j < k
        invariant
            j <= k,
            k <= comps@.len(),
            out@ == join_path(comps.deep_view().take(j as int)),
        decreases k - j,
    {
        let ghost pre = comps.deep_view().take(j as int);
        let ghost c = comps.deep_view()[j as int];
        if j > 0 {
            out.push(SLASH);
        }
        push_all(&mut out, &comps[j]);
        proof {
            lemma_join_push(pre, c);
            assert(comps.deep_view().take(j as int + 1) =~~= pre.push(c));
            assert(c =~= comps@[j as int]@);
            if j == 0 {
                assert(out@ =~= c);
            } else {
                assert(out@ =~= join_path(pre) + seq![SLASH] + c);
            }
        }
        j += 1;
    }
    out
}

/// The safe relative path derived from an entry name, or `None` when
/// the safety filter rejects the name.
pub fn sanitize_name(name: &Vec<u8>) -> (r: Option<Vec<u8>>)
    ensures
        match r {
            Some(p) => sanitized_path(name@) == Some(p@),
            None => sanitized_path(name@) is None,
        },
{
    match sanitize_components(name) {
        Some(cs) => {
            let joined = join_prefix(&cs, cs.len());
            proof {
                assert(cs.deep_view().take(cs@.len() as int) =~~= cs.deep_view());
            }
            Some(joined)
        },
        None => None,
    }
}

} // verus!
