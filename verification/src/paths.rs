use vstd::prelude::*;

verus! {

/// A path inside the install directory: a sequence of name components,
/// each a sequence of bytes.
pub type PathSpec = Seq<Seq<u8>>;

/// Whether an entry name marks a directory: it ends with `'/'`.
pub open spec fn is_dir_name(name: Seq<u8>) -> bool {
    name.len() > 0 && name[name.len() - 1] == 47
}

/// Split `s` on `'/'`, scanning from `i` with the current component
/// starting at `start`.
pub open spec fn split_slash_from(s: Seq<u8>, start: int, i: int) -> Seq<Seq<u8>>
    decreases s.len() - i when 0 <= start <= i <= s.len()
{
    if i >= s.len() {
        seq![s.subrange(start, i)]
    } else if s[i] == 47 {
        seq![s.subrange(start, i)] + split_slash_from(s, i + 1, i + 1)
    } else {
        split_slash_from(s, start, i + 1)
    }
}

/// The components of `s`, split on `'/'`.
pub open spec fn split_slash(s: Seq<u8>) -> Seq<Seq<u8>> {
    split_slash_from(s, 0, 0)
}

/// The single byte `'.'`.
pub open spec fn dot() -> Seq<u8> {
    seq![46u8]
}

/// The two bytes `".."`.
pub open spec fn dot_dot() -> Seq<u8> {
    seq![46u8, 46u8]
}

/// Resolve raw components against a stack of kept components: empty
/// components and `"."` are dropped, `".."` pops the stack, and a pop of
/// an empty stack means the path escapes the target directory.
pub open spec fn resolve_from(stack: PathSpec, comps: Seq<Seq<u8>>, i: int) -> Option<PathSpec>
    decreases comps.len() - i when 0 <= i <= comps.len()
{
    if i >= comps.len() {
        Some(stack)
    } else if comps[i].len() == 0 || comps[i] == dot() {
        resolve_from(stack, comps, i + 1)
    } else if comps[i] == dot_dot() {
        if stack.len() == 0 {
            None
        } else {
            resolve_from(stack.drop_last(), comps, i + 1)
        }
    } else {
        resolve_from(stack.push(comps[i]), comps, i + 1)
    }
}

/// Whether `name` holds a byte that disqualifies it outright: a NUL, or a
/// backslash (never treated as a separator, and unsafe on the target
/// platform).
pub open spec fn has_forbidden_byte(name: Seq<u8>) -> bool {
    exists|k: int| 0 <= k < name.len() && (name[k] == 0 || name[k] == 92)
}

/// The resolved components of an archive entry name, or `None` when the
/// name cannot be safely resolved inside the target directory: it is
/// empty, absolute, holds a forbidden byte, or climbs out through `".."`.
pub open spec fn entry_components(name: Seq<u8>) -> Option<PathSpec> {
    if name.len() == 0 || name[0] == 47 || has_forbidden_byte(name) {
        None
    } else {
        resolve_from(Seq::empty(), split_slash(name), 0)
    }
}

/// The top-level directory names that a new archive always overwrites.
pub open spec fn replace_set() -> Set<Seq<u8>> {
    set![
        seq![97u8, 115u8, 115u8, 101u8, 116u8, 115u8],
        seq![115u8, 116u8, 111u8, 114u8, 101u8, 105u8, 109u8, 97u8, 103u8, 101u8, 115u8],
        seq![98u8, 105u8, 110u8],
    ]
}

/// Whether a resolved path falls under the replace-set: its first
/// component names one of the always-overwritten directories.
pub open spec fn in_replace_set(p: PathSpec) -> bool {
    p.len() > 0 && replace_set().contains(p[0])
}

/// For byte vectors the deep view is the view itself.
pub proof fn lemma_bytes_deep_view(v: &Vec<u8>)
    ensures
        v.deep_view() == v@,
{
    assert(v.deep_view() =~= v@);
}

/// Compare two byte vectors.
pub fn bytes_eq(a: &Vec<u8>, b: &Vec<u8>) -> (r: bool)
    ensures
        r == (a@ == b@),
{
    if a.len() != b.len() {
        proof {
            assert(a@.len() != b@.len());
        }
        return false;
    }
    let n: usize = a.len();
    let mut i: usize = 0;
    while i < n
        invariant
            0 <= i <= n,
            n == a@.len() == b@.len(),
            forall|k: int| 0 <= k < i ==> a@[k] == b@[k],
        decreases n - i,
    {
        if a[i] != b[i] {
            return false;
        }
        i = i + 1;
    }
    proof {
        assert(a@ =~= b@);
    }
    true
}

/// Copy a byte vector.
pub fn copy_bytes(v: &Vec<u8>) -> (r: Vec<u8>)
    ensures
        r@ == v@,
{
    let n: usize = v.len();
    let mut r: Vec<u8> = Vec::new();
    let mut i: usize = 0;
    while i < n
        invariant
            0 <= i <= n,
            n == v@.len(),
            r@ == v@.subrange(0, i as int),
        decreases n - i,
    {
        r.push(v[i]);
        assert(r@ =~= v@.subrange(0, i + 1));
        i = i + 1;
    }
    proof {
        assert(r@ =~= v@);
    }
    r
}

/// Split an entry name on `'/'`.
fn split_slash_exec(s: &Vec<u8>) -> (r: Vec<Vec<u8>>)
    ensures
        r.deep_view() == split_slash(s@),
{
    let n: usize = s.len();
    let mut r: Vec<Vec<u8>> = Vec::new();
    let mut cur: Vec<u8> = Vec::new();
    let mut start: usize = 0;
    let mut i: usize = 0;
    while i < n
        invariant
            0 <= start <= i <= n,
            n == s@.len(),
            cur@ == s@.subrange(start as int, i as int),
            split_slash(s@) == r.deep_view() + split_slash_from(s@, start as int, i as int),
        decreases n - i,
    {
        if s[i] == 47 {
            let ghost pre_r = r.deep_view();
            let ghost sub = s@.subrange(start as int, i as int);
            proof {
                assert(split_slash_from(s@, start as int, i as int) == seq![sub]
                    + split_slash_from(s@, i + 1, i + 1));
            }
            proof {
                lemma_bytes_deep_view(&cur);
            }
            r.push(cur);
            proof {
                assert(r.deep_view() =~= pre_r.push(sub));
                assert(pre_r.push(sub) + split_slash_from(s@, i + 1, i + 1) =~= pre_r + (seq![sub]
                    + split_slash_from(s@, i + 1, i + 1)));
            }
            cur = Vec::new();
            proof {
                assert(cur@ =~= s@.subrange(i + 1, i + 1));
            }
            start = i + 1;
        } else {
            proof {
                assert(split_slash_from(s@, start as int, i as int) == split_slash_from(
                    s@,
                    start as int,
                    i + 1,
                ));
            }
            cur.push(s[i]);
            proof {
                assert(cur@ =~= s@.subrange(start as int, i + 1));
            }
        }
        i = i + 1;
    }
    let ghost pre_r = r.deep_view();
    let ghost sub = s@.subrange(start as int, n as int);
    proof {
        assert(split_slash_from(s@, start as int, n as int) == seq![sub]);
    }
    proof {
        lemma_bytes_deep_view(&cur);
    }
    r.push(cur);
    proof {
        assert(r.deep_view() =~= pre_r.push(sub));
        assert(pre_r.push(sub) =~= pre_r + seq![sub]);
        assert(r.deep_view() =~= split_slash(s@));
    }
    r
}

/// Resolve raw components; `None` when the path escapes upward.
fn resolve_exec(comps: Vec<Vec<u8>>) -> (r: Option<Vec<Vec<u8>>>)
    ensures
        match r {
            Some(p) => resolve_from(Seq::empty(), comps.deep_view(), 0) == Some(p.deep_view()),
            None => resolve_from(Seq::empty(), comps.deep_view(), 0) is None,
        },
{
    let n: usize = comps.len();
    let mut stack: Vec<Vec<u8>> = Vec::new();
    let mut i: usize = 0;
    proof {
        assert(stack.deep_view() =~= Seq::<Seq<u8>>::empty());
    }
    while i < n
        invariant
            0 <= i <= n,
            n == comps@.len(),
            comps.deep_view().len() == n,
            resolve_from(Seq::empty(), comps.deep_view(), 0) == resolve_from(
                stack.deep_view(),
                comps.deep_view(),
                i as int,
            ),
        decreases n - i,
    {
        let c = &comps[i];
        proof {
            lemma_bytes_deep_view(c);
            assert(comps.deep_view()[i as int] == comps@[i as int]@);
        }
        if c.len() == 0 || (c.len() == 1 && c[0] == 46) {
            proof {
                if c.len() == 1 && c[0] == 46 {
                    assert(c@ =~= dot());
                }
            }
        } else if c.len() == 2 && c[0] == 46 && c[1] == 46 {
            proof {
                assert(c@ =~= dot_dot());
            }
            if stack.len() == 0 {
                proof {
                    assert(stack.deep_view().len() == 0);
                }
                return None;
            }
            proof {
                let ghost old_stack = stack.deep_view();
                assert(old_stack.len() > 0);
            }
            let ghost pre = stack.deep_view();
            stack.pop();
            proof {
                assert(stack.deep_view() =~= pre.drop_last());
            }
        } else {
            proof {
                assert(c@.len() != 0);
                assert(c@ != dot()) by {
                    if c@ == dot() {
                        assert(c@.len() == 1 && c@[0] == 46);
                    }
                }
                assert(c@ != dot_dot()) by {
                    if c@ == dot_dot() {
                        assert(c@.len() == 2 && c@[0] == 46 && c@[1] == 46);
                    }
                }
            }
            let ghost pre = stack.deep_view();
            let copied = copy_bytes(c);
            proof {
                lemma_bytes_deep_view(&copied);
            }
            stack.push(copied);
            proof {
                assert(stack.deep_view() =~= pre.push(comps.deep_view()[i as int]));
            }
        }
        i = i + 1;
    }
    Some(stack)
}

/// The resolved components of an archive entry name; `None` when the name
/// cannot be safely resolved inside the target directory.
pub fn parse_entry_name(name: &Vec<u8>) -> (r: Option<Vec<Vec<u8>>>)
    ensures
        match r {
            Some(p) => entry_components(name@) == Some(p.deep_view()),
            None => entry_components(name@) is None,
        },
{
    let n: usize = name.len();
    if n == 0 || name[0] == 47 {
        return None;
    }
    let mut i: usize = 0;
    while i < n
        invariant
            0 <= i <= n,
            n == name@.len(),
            forall|k: int| 0 <= k < i ==> name@[k] != 0 && name@[k] != 92,
        decreases n - i,
    {
        if name[i] == 0 || name[i] == 92 {
            return None;
        }
        i = i + 1;
    }
    proof {
        assert(!has_forbidden_byte(name@));
    }
    let comps = split_slash_exec(name);
    resolve_exec(comps)
}

/// Whether a name component falls in the replace-set.
pub fn component_in_replace_set(c: &Vec<u8>) -> (r: bool)
    ensures
        r == replace_set().contains(c@),
{
    let assets: Vec<u8> = vec![97u8, 115u8, 115u8, 101u8, 116u8, 115u8];
    let storeimages: Vec<u8> = vec![
        115u8,
        116u8,
        111u8,
        114u8,
        101u8,
        105u8,
        109u8,
        97u8,
        103u8,
        101u8,
        115u8,
    ];
    let bin: Vec<u8> = vec![98u8, 105u8, 110u8];
    let r = bytes_eq(c, &assets) || bytes_eq(c, &storeimages) || bytes_eq(c, &bin);
    proof {
        assert(assets@ =~= seq![97u8, 115u8, 115u8, 101u8, 116u8, 115u8]);
        assert(storeimages@ =~= seq![
            115u8,
            116u8,
            111u8,
            114u8,
            101u8,
            105u8,
            109u8,
            97u8,
            103u8,
            101u8,
            115u8,
        ]);
        assert(bin@ =~= seq![98u8, 105u8, 110u8]);
    }
    r
}

/// Whether a resolved path falls under the replace-set.
pub fn path_in_replace_set(p: &Vec<Vec<u8>>) -> (r: bool)
    ensures
        r == in_replace_set(p.deep_view()),
{
    if p.len() == 0 {
        return false;
    }
    proof {
        assert(p.deep_view()[0] == p@[0]@);
    }
    component_in_replace_set(&p[0])
}

/// Whether an entry name marks a directory.
pub fn name_is_dir(name: &Vec<u8>) -> (r: bool)
    ensures
        r == is_dir_name(name@),
{
    name.len() > 0 && name[name.len() - 1] == 47
}

/// Compare two paths component by component.
pub fn path_eq(a: &Vec<Vec<u8>>, b: &Vec<Vec<u8>>) -> (r: bool)
    ensures
        r == (a.deep_view() == b.deep_view()),
{
    if a.len() != b.len() {
        proof {
            assert(a.deep_view().len() != b.deep_view().len());
        }
        return false;
    }
    let n: usize = a.len();
    let mut i: usize = 0;
    while i < n
        invariant
            0 <= i <= n,
            n == a@.len() == b@.len(),
            a.deep_view().len() == b.deep_view().len() == n,
            forall|k: int| 0 <= k < i ==> a.deep_view()[k] == b.deep_view()[k],
        decreases n - i,
    {
        proof {
            assert(a.deep_view()[i as int] == a@[i as int]@);
            assert(b.deep_view()[i as int] == b@[i as int]@);
        }
        if !bytes_eq(&a[i], &b[i]) {
            return false;
        }
        i = i + 1;
    }
    proof {
        assert(a.deep_view() =~= b.deep_view());
    }
    true
}

} // verus!
