//! The multi-value expander: which variables fan a template out, how many
//! times, and what each round binds them to.
//!
//! A variable fans a template out when its value is a list, written with `|`
//! between the elements, and the template refers to it by name between the
//! two delimiters.
use crate::text::{append, contains, contains_char, slice, spec_contains, spec_split, spec_trim,
    split, trim};
use crate::variables::Variables;
use vstd::prelude::*;

verus! {

/// The sign `|` between the elements of a value list.
pub open spec fn pipe() -> Seq<char> {
    seq!['|']
}

/// The placeholder that refers to `name`.
pub open spec fn reference(open: Seq<char>, name: Seq<char>, close: Seq<char>) -> Seq<char> {
    open + name + close
}

/// The number of elements of the value list `value`.
pub open spec fn count(value: Seq<char>) -> nat {
    spec_split(value, pipe()).len()
}

/// Element `i` of the value list `value`, trimmed.
pub open spec fn element(value: Seq<char>, i: int) -> Seq<char> {
    spec_trim(spec_split(value, pipe())[i])
}

/// Whether the variable `name` fans `body` out.
pub open spec fn fans(
    open: Seq<char>,
    close: Seq<char>,
    vars: Map<Seq<char>, Seq<char>>,
    body: Seq<char>,
    name: Seq<char>,
) -> bool {
    &&& vars.contains_key(name)
    &&& spec_contains(vars[name], pipe())
    &&& spec_contains(body, reference(open, name, close))
}

/// Whether `n` is the length of the shortest value list that fans `body` out.
pub open spec fn is_width(
    open: Seq<char>,
    close: Seq<char>,
    vars: Map<Seq<char>, Seq<char>>,
    body: Seq<char>,
    n: nat,
) -> bool {
    &&& exists|k: Seq<char>| #[trigger] fans(open, close, vars, body, k) && count(vars[k]) == n
    &&& forall|k: Seq<char>| #[trigger] fans(open, close, vars, body, k) ==> n <= count(vars[k])
}

/// How many times `body` is expanded: the length of the shortest value list
/// that fans it out, or `None` where no variable does.
pub open spec fn width(
    open: Seq<char>,
    close: Seq<char>,
    vars: Map<Seq<char>, Seq<char>>,
    body: Seq<char>,
) -> Option<nat> {
    if exists|k: Seq<char>| #[trigger] fans(open, close, vars, body, k) {
        Some(choose|n: nat| is_width(open, close, vars, body, n))
    } else {
        None
    }
}

/// The variables of round `i`: each variable that fans `body` out is bound to
/// element `i` of its list, the others are as they were.
pub open spec fn overlay(
    open: Seq<char>,
    close: Seq<char>,
    vars: Map<Seq<char>, Seq<char>>,
    body: Seq<char>,
    i: int,
) -> Map<Seq<char>, Seq<char>> {
    Map::new(
        |k: Seq<char>| vars.contains_key(k),
        |k: Seq<char>|
            if fans(open, close, vars, body, k) {
                element(vars[k], i)
            } else {
                vars[k]
            },
    )
}

/// Only one number is the length of the shortest list.
pub proof fn lemma_width_unique(
    open: Seq<char>,
    close: Seq<char>,
    vars: Map<Seq<char>, Seq<char>>,
    body: Seq<char>,
    n: nat,
)
    requires
        is_width(open, close, vars, body, n),
    ensures
        width(open, close, vars, body) == Some(n),
{
    let m = choose|m: nat| is_width(open, close, vars, body, m);
    let kn = choose|k: Seq<char>| #[trigger]
        fans(open, close, vars, body, k) && count(vars[k]) == n;
    let km = choose|k: Seq<char>| #[trigger]
        fans(open, close, vars, body, k) && count(vars[k]) == m;
    assert(fans(open, close, vars, body, kn));
    assert(fans(open, close, vars, body, km));
}

/// Tests whether `body` refers to the variable `name`.
pub fn refers(body: &Vec<char>, open: &Vec<char>, name: &Vec<char>, close: &Vec<char>) -> (r: bool)
    ensures
        r == spec_contains(body@, reference(open@, name@, close@)),
{
    let mut needle: Vec<char> = Vec::new();
    append(&mut needle, open);
    append(&mut needle, name);
    append(&mut needle, close);
    assert(needle@ =~= reference(open@, name@, close@));
    contains(body, &needle)
}

/// Tests whether the variable at position `j` fans `body` out.
fn fans_at(open: &Vec<char>, close: &Vec<char>, vars: &Variables, body: &Vec<char>, j: usize) -> (r:
    bool)
    requires
        j < vars.names().len(),
    ensures
        r == fans(open@, close@, vars@, body@, vars.names()[j as int]),
{
    let value = vars.value_at(j);
    contains_char(value, '|') && refers(body, open, vars.name_at(j), close)
}

/// Finds how many times `body` is expanded.
pub fn fan_width(open: &Vec<char>, close: &Vec<char>, vars: &Variables, body: &Vec<char>) -> (r:
    Option<usize>)
    ensures
        match r {
            Some(n) => width(open@, close@, vars@, body@) == Some(n as nat) && is_width(
                open@,
                close@,
                vars@,
                body@,
                n as nat,
            ),
            None => width(open@, close@, vars@, body@) is None,
        },
{
    let total = vars.len();
    let ghost names = vars.names();
    let mut best: Option<usize> = None;
    let mut j: usize = 0;
    while j < total
        invariant
            j <= total,
            total == names.len(),
            names == vars.names(),
            best is None ==> forall|i: int|
                0 <= i < j ==> !fans(open@, close@, vars@, body@, #[trigger] names[i]),
            best matches Some(b) ==> {
                &&& exists|i: int|
                    0 <= i < j && fans(open@, close@, vars@, body@, #[trigger] names[i]) && count(
                        vars@[names[i]],
                    ) == b
                &&& forall|i: int|
                    0 <= i < j && fans(open@, close@, vars@, body@, #[trigger] names[i]) ==> b
                        <= count(vars@[names[i]])
            },
        decreases total - j,
    {
        if fans_at(open, close, vars, body, j) {
            let bar: Vec<char> = vec!['|'];
            assert(bar@ =~= pipe());
            let n = split(vars.value_at(j), &bar).len();
            assert(n == count(vars@[names[j as int]]));
            match best {
                Some(b) => {
                    if n < b {
                        best = Some(n);
                    }
                },
                None => {
                    best = Some(n);
                },
            }
        }
        j += 1;
    }
    proof {
        match best {
            Some(b) => {
                let i = choose|i: int|
                    0 <= i < j && fans(open@, close@, vars@, body@, #[trigger] names[i]) && count(
                        vars@[names[i]],
                    ) == b;
                assert(fans(open@, close@, vars@, body@, names[i]));
                assert forall|k: Seq<char>| #[trigger]
                    fans(open@, close@, vars@, body@, k) implies b <= count(vars@[k]) by {
                    assert(names.contains(k));
                    let at = choose|at: int| 0 <= at < names.len() && names[at] == k;
                    assert(fans(open@, close@, vars@, body@, names[at]));
                }
                assert(is_width(open@, close@, vars@, body@, b as nat));
                lemma_width_unique(open@, close@, vars@, body@, b as nat);
            },
            None => {
                assert forall|k: Seq<char>| !#[trigger] fans(open@, close@, vars@, body@, k) by {
                    if fans(open@, close@, vars@, body@, k) {
                        assert(names.contains(k));
                        let at = choose|at: int| 0 <= at < names.len() && names[at] == k;
                        assert(!fans(open@, close@, vars@, body@, names[at]));
                    }
                }
            },
        }
    }
    best
}

/// Builds the variables of round `i`.
pub(crate) fn overlay_at(
    open: &Vec<char>,
    close: &Vec<char>,
    vars: &Variables,
    body: &Vec<char>,
    i: usize,
) -> (r: Variables)
    requires
        forall|k: Seq<char>| #[trigger] fans(open@, close@, vars@, body@, k) ==> i < count(vars@[k]),
    ensures
        r@ == overlay(open@, close@, vars@, body@, i as int),
{
    let total = vars.len();
    let ghost names = vars.names();
    let ghost goal = overlay(open@, close@, vars@, body@, i as int);
    let mut r = Variables::new();
    let mut j: usize = 0;
    while j < total
        invariant
            j <= total,
            total == names.len(),
            names == vars.names(),
            goal == overlay(open@, close@, vars@, body@, i as int),
            forall|k: Seq<char>| #[trigger] fans(open@, close@, vars@, body@, k) ==> i < count(vars@[k]),
            forall|k: Seq<char>| vars@.contains_key(k) <==> names.contains(k),
            forall|k: Seq<char>|
                r@.contains_key(k) <==> exists|at: int| 0 <= at < j && #[trigger] names[at] == k,
            forall|k: Seq<char>| r@.contains_key(k) ==> r@[k] == goal[k],
        decreases total - j,
    {
        let name = vars.name_at(j);
        let value = vars.value_at(j);
        let ghost before = r@;
        let bound = if fans_at(open, close, vars, body, j) {
            let bar: Vec<char> = vec!['|'];
            assert(bar@ =~= pipe());
            let parts = split(value, &bar);
            trim(&parts[i])
        } else {
            let c = slice(value, 0, value.len());
            assert(c@ =~= value@);
            c
        };
        let key = slice(name, 0, name.len());
        assert(key@ =~= name@);
        assert(names.contains(names[j as int]));
        r.set(key, bound);
        proof {
            assert forall|k: Seq<char>| r@.contains_key(k) implies exists|at: int|
                0 <= at < j + 1 && #[trigger] names[at] == k by {
                if k == names[j as int] {
                } else {
                    assert(before.contains_key(k));
                    let at = choose|at: int| 0 <= at < j && #[trigger] names[at] == k;
                    assert(0 <= at < j + 1 && names[at] == k);
                }
            }
        }
        j += 1;
    }
    proof {
        assert forall|k: Seq<char>| r@.contains_key(k) <==> goal.contains_key(k) by {
            if r@.contains_key(k) {
                let at = choose|at: int| 0 <= at < j && #[trigger] names[at] == k;
                assert(names.contains(k));
            }
            if goal.contains_key(k) {
                assert(names.contains(k));
                let at = choose|at: int| 0 <= at < names.len() && names[at] == k;
                assert(0 <= at < j && names[at] == k);
            }
        }
        assert(r@ =~= goal);
    }
    r
}

} // verus!
