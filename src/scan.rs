use vstd::prelude::*;

verus! {

/// `a` comes before `b` in the order of text: lexicographically by code
/// point, a proper prefix first.
pub open spec fn text_lt(a: Seq<char>, b: Seq<char>) -> bool
    decreases a.len(),
{
    if b.len() == 0 {
        false
    } else if a.len() == 0 {
        true
    } else if a[0] != b[0] {
        (a[0] as int) < (b[0] as int)
    } else {
        text_lt(a.drop_first(), b.drop_first())
    }
}

/// Relies on `PartialOrd for String` (`<`): strings are ordered
/// lexicographically by their bytes, which orders the code points by their
/// value, a proper prefix first.
#[verifier::external_body]
fn lt_text(a: &String, b: &String) -> (r: bool)
    ensures
        r == text_lt(a@, b@),
{
    a < b
}

pub proof fn lemma_text_irreflexive(a: Seq<char>)
    ensures
        !text_lt(a, a),
    decreases a.len(),
{
    if a.len() > 0 {
        lemma_text_irreflexive(a.drop_first());
    }
}

pub proof fn lemma_text_transitive(a: Seq<char>, b: Seq<char>, c: Seq<char>)
    requires
        text_lt(a, b),
        text_lt(b, c),
    ensures
        text_lt(a, c),
    decreases a.len(),
{
    if a.len() > 0 && b.len() > 0 && c.len() > 0 && a[0] == b[0] && b[0] == c[0] {
        lemma_text_transitive(a.drop_first(), b.drop_first(), c.drop_first());
    }
}

pub proof fn lemma_text_total(a: Seq<char>, b: Seq<char>)
    ensures
        a == b || text_lt(a, b) || text_lt(b, a),
        !(text_lt(a, b) && text_lt(b, a)),
    decreases a.len(),
{
    if a.len() > 0 && b.len() > 0 {
        if a[0] == b[0] {
            lemma_text_total(a.drop_first(), b.drop_first());
            if a.drop_first() == b.drop_first() {
                assert(a =~= b.drop_first().insert(0, b[0]));
                assert(b =~= b.drop_first().insert(0, b[0]));
            }
        } else {
            assert((a[0] as int) != (b[0] as int));
        }
    } else if a.len() == 0 && b.len() == 0 {
        assert(a =~= b);
    }
}

/// `k` comes after `start`, where there is one.
spec fn after_start(start: Option<String>, k: Seq<char>) -> bool {
    match start {
        Some(s) => text_lt(s@, k),
        None => true,
    }
}

/// `k` is one of `keys`.
spec fn listed(keys: Seq<String>, k: Seq<char>) -> bool {
    exists|i: int| 0 <= i < keys.len() && keys[i]@ == k
}

spec fn is_string_page(keys: Seq<String>, start: Option<String>, limit: nat, r: Seq<String>) -> bool {
    &&& r.len() <= limit
    &&& forall|p: int, q: int| 0 <= p < q < r.len() ==> text_lt(#[trigger] r[p]@, #[trigger] r[q]@)
    &&& forall|p: int|
        0 <= p < r.len() ==> listed(keys, #[trigger] r[p]@) && after_start(start, r[p]@)
    &&& forall|k: Seq<char>|
        #[trigger] listed(keys, k) && after_start(start, k) && (r.len() < limit || (r.len() > 0
            && text_lt(k, r.last()@))) ==> exists|p: int| 0 <= p < r.len() && r[p]@ == k
}

spec fn past(start: Option<String>, out: Seq<String>, k: Seq<char>) -> bool {
    if out.len() > 0 {
        text_lt(out.last()@, k)
    } else {
        after_start(start, k)
    }
}

fn is_past(k: &String, start: &Option<String>, out: &Vec<String>) -> (r: bool)
    ensures
        r == past(*start, out@, k@),
{
    if out.len() > 0 {
        lt_text(&out[out.len() - 1], k)
    } else {
        match start {
            Some(s) => lt_text(s, k),
            None => true,
        }
    }
}

/// Each round picks the least key past the last one taken.
fn select_page(keys: &Vec<String>, start_after: &Option<String>, limit: usize) -> (r: Vec<String>)
    ensures
        is_string_page(keys@, *start_after, limit as nat, r@),
{
    let mut out: Vec<String> = Vec::new();
    let mut finished = false;
    while out.len() < limit && !finished
        invariant
            out@.len() <= limit,
            forall|p: int, q: int|
                0 <= p < q < out@.len() ==> text_lt(#[trigger] out@[p]@, #[trigger] out@[q]@),
            forall|p: int|
                0 <= p < out@.len() ==> listed(keys@, #[trigger] out@[p]@) && after_start(
                    *start_after,
                    out@[p]@,
                ),
            forall|k: Seq<char>|
                #[trigger] listed(keys@, k) && after_start(*start_after, k) && (finished || (
                out@.len() > 0 && !text_lt(out@.last()@, k))) ==> exists|p: int|
                    0 <= p < out@.len() && out@[p]@ == k,
        decreases (limit - out@.len()) * 2 + if finished {
            0int
        } else {
            1int
        },
    {
        let mut best: Option<usize> = None;
        let mut j: usize = 0;
        while j < keys.len()
            invariant
                0 <= j <= keys@.len(),
                match best {
                    Some(b) => b < keys@.len() && past(*start_after, out@, keys@[b as int]@)
                        && forall|t: int|
                        0 <= t < j && past(*start_after, out@, #[trigger] keys@[t]@) ==> !text_lt(
                            keys@[t]@,
                            keys@[b as int]@,
                        ),
                    None => forall|t: int|
                        0 <= t < j ==> !past(*start_after, out@, #[trigger] keys@[t]@),
                },
            decreases keys@.len() - j,
        {
            if is_past(&keys[j], start_after, &out) {
                match best {
                    Some(b) => {
                        if lt_text(&keys[j], &keys[b]) {
                            proof {
                                assert forall|t: int|
                                    0 <= t < j + 1 && past(*start_after, out@, #[trigger] keys@[t]@)
                                        implies !text_lt(keys@[t]@, keys@[j as int]@) by {
                                    if t < j && text_lt(keys@[t]@, keys@[j as int]@) {
                                        lemma_text_transitive(
                                            keys@[t]@,
                                            keys@[j as int]@,
                                            keys@[b as int]@,
                                        );
                                    }
                                    if t == j {
                                        lemma_text_irreflexive(keys@[t]@);
                                    }
                                }
                            }
                            best = Some(j);
                        }
                    },
                    None => {
                        proof {
                            lemma_text_irreflexive(keys@[j as int]@);
                        }
                        best = Some(j);
                    },
                }
            }
            j = j + 1;
        }
        match best {
            Some(b) => {
                let ghost old_out = out@;
                let ghost m = keys@[b as int]@;
                proof {
                    if old_out.len() > 0 {
                        let last = old_out.last()@;
                        assert(text_lt(last, m));
                        assert(after_start(*start_after, last));
                        if start_after.is_some() {
                            lemma_text_transitive(start_after->Some_0@, last, m);
                        }
                        assert forall|p: int| 0 <= p < old_out.len() implies text_lt(
                            #[trigger] old_out[p]@,
                            m,
                        ) by {
                            if p < old_out.len() - 1 {
                                lemma_text_transitive(old_out[p]@, last, m);
                            }
                        }
                    }
                }
                out.push(keys[b].clone());
                proof {
                    assert(out@[out@.len() - 1]@ == m);
                    assert forall|p: int| 0 <= p < old_out.len() implies #[trigger] out@[p] == old_out[p] by {}
                    assert(listed(keys@, m));
                    assert forall|k: Seq<char>|
                        #[trigger] listed(keys@, k) && after_start(*start_after, k) && (finished || (
                        out@.len() > 0 && !text_lt(out@.last()@, k))) implies exists|p: int|
                            0 <= p < out@.len() && out@[p]@ == k by {
                        if old_out.len() > 0 && !text_lt(old_out.last()@, k) {
                            let p = choose|p: int| 0 <= p < old_out.len() && old_out[p]@ == k;
                            assert(out@[p]@ == k);
                        } else {
                            let t = choose|t: int| 0 <= t < keys@.len() && keys@[t]@ == k;
                            assert(past(*start_after, old_out, keys@[t]@));
                            lemma_text_total(k, m);
                            assert(out@[out@.len() - 1]@ == k);
                        }
                    }
                }
            },
            None => {
                proof {
                    assert forall|k: Seq<char>|
                        #[trigger] listed(keys@, k) && after_start(*start_after, k) implies exists|
                        p: int,
                    | 0 <= p < out@.len() && out@[p]@ == k by {
                        let t = choose|t: int| 0 <= t < keys@.len() && keys@[t]@ == k;
                        assert(!past(*start_after, out@, keys@[t]@));
                    }
                }
                finished = true;
            },
        }
    }
    proof {
        assert forall|k: Seq<char>|
            #[trigger] listed(keys@, k) && after_start(*start_after, k) && (out@.len() < limit
                || (out@.len() > 0 && text_lt(k, out@.last()@))) implies exists|p: int|
                0 <= p < out@.len() && out@[p]@ == k by {
            if out@.len() >= limit {
                lemma_text_total(k, out@.last()@);
            }
        }
    }
    out
}

/// `k` comes after `start`, where there is one.
pub open spec fn after(start: Option<Seq<char>>, k: Seq<char>) -> bool {
    match start {
        Some(s) => text_lt(s, k),
        None => true,
    }
}

/// `r` is the page of `keys` after `start`: strictly ascending, at most
/// `limit` long, and holding the keys after `start` from the least on with
/// none skipped; all of them where it is shorter than `limit`.
pub open spec fn is_page(
    keys: Set<Seq<char>>,
    start: Option<Seq<char>>,
    limit: nat,
    r: Seq<Seq<char>>,
) -> bool {
    &&& r.len() <= limit
    &&& forall|p: int, q: int| 0 <= p < q < r.len() ==> text_lt(#[trigger] r[p], #[trigger] r[q])
    &&& forall|p: int| 0 <= p < r.len() ==> keys.contains(#[trigger] r[p]) && after(start, r[p])
    &&& forall|k: Seq<char>|
        #[trigger] keys.contains(k) && after(start, k) && (r.len() < limit || (r.len() > 0
            && text_lt(k, r.last()))) ==> r.contains(k)
}

pub open spec fn texts(s: Seq<String>) -> Seq<Seq<char>> {
    s.map_values(|x: String| x@)
}

pub open spec fn opt_text(o: Option<String>) -> Option<Seq<char>> {
    match o {
        Some(x) => Some(x@),
        None => None,
    }
}

/// The page of `keys` after `start_after`, at most `limit` long, in
/// ascending order.
pub fn page(keys: &Vec<String>, start_after: &Option<String>, limit: usize) -> (r: Vec<String>)
    ensures
        is_page(texts(keys@).to_set(), opt_text(*start_after), limit as nat, texts(r@)),
{
    let r = select_page(keys, start_after, limit);
    proof {
        let ks = texts(keys@);
        let rs = texts(r@);
        assert forall|k: Seq<char>| ks.to_set().contains(k) == listed(keys@, k) by {
            if listed(keys@, k) {
                let i = choose|i: int| 0 <= i < keys@.len() && keys@[i]@ == k;
                assert(ks[i] == k);
            }
            if ks.contains(k) {
                let i = choose|i: int| 0 <= i < ks.len() && ks[i] == k;
                assert(keys@[i]@ == k);
            }
        }
        assert forall|k: Seq<char>| after(opt_text(*start_after), k) == after_start(*start_after, k) by {}
        assert forall|p: int| 0 <= p < rs.len() implies #[trigger] rs[p] == r@[p]@ by {}
        assert forall|k: Seq<char>|
            #[trigger] ks.to_set().contains(k) && after(opt_text(*start_after), k) && (rs.len()
                < limit || (rs.len() > 0 && text_lt(k, rs.last()))) implies rs.contains(k) by {
            assert(listed(keys@, k));
            let p = choose|p: int| 0 <= p < r@.len() && r@[p]@ == k;
            assert(rs[p] == k);
        }
    }
    r
}

/// The page length where none is asked for.
pub const DEFAULT_LIMIT: u32 = 10;

/// The longest page handed out.
pub const MAX_LIMIT: u32 = 30;

/// The page length for the `limit` asked for.
pub open spec fn effective_limit(limit: Option<u32>) -> nat {
    let l = match limit {
        Some(l) => l,
        None => DEFAULT_LIMIT,
    };
    if l > MAX_LIMIT {
        MAX_LIMIT as nat
    } else {
        l as nat
    }
}

/// The page length for the `limit` asked for.
pub fn page_limit(limit: Option<u32>) -> (r: usize)
    ensures
        r == effective_limit(limit),
{
    let l = match limit {
        Some(l) => l,
        None => DEFAULT_LIMIT,
    };
    if l > MAX_LIMIT {
        MAX_LIMIT as usize
    } else {
        l as usize
    }
}

} // verus!
