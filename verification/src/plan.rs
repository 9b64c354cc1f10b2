//! Planning of the standalone merge command: of the scanned directory
//! entries only filenames with the recognized document extension are
//! kept, and they are merged in lexicographic filename order.

use vstd::prelude::*;

use crate::chartext::{lex_le, str_chars, str_le};

verus! {

broadcast use vstd::seq_lib::to_multiset_insert, vstd::seq_lib::group_to_multiset_ensures;

/// A filename with the recognized document extension: it ends in
/// `.pdf` with a nonempty stem before it.
pub open spec fn spec_pdf_name(s: Seq<char>) -> bool {
    s.len() > 4 && s.subrange(s.len() - 4, s.len() as int) == ".pdf"@
}

/// The filenames with the recognized extension, in scan order.
pub open spec fn spec_pdf_only(v: Seq<Seq<char>>) -> Seq<Seq<char>>
    decreases v.len(),
{
    if v.len() == 0 {
        Seq::empty()
    } else {
        let rest = spec_pdf_only(v.drop_last());
        if spec_pdf_name(v.last()) {
            rest.push(v.last())
        } else {
            rest
        }
    }
}

/// Every pair of names stands in lexicographic order.
pub open spec fn sorted_lex(v: Seq<Seq<char>>) -> bool {
    forall|i: int, j: int| 0 <= i < j < v.len() ==> lex_le(#[trigger] v[i], #[trigger] v[j])
}

/// A name placed into a sorted list, before the first entry it does
/// not follow.
pub open spec fn spec_insert_sorted(x: Seq<char>, v: Seq<Seq<char>>) -> Seq<Seq<char>>
    decreases v.len(),
{
    if v.len() == 0 {
        seq![x]
    } else if lex_le(v.first(), x) {
        seq![v.first()] + spec_insert_sorted(x, v.drop_first())
    } else {
        seq![x] + v
    }
}

/// The names arranged in lexicographic order, by insertion.
pub open spec fn spec_sort_lex(v: Seq<Seq<char>>) -> Seq<Seq<char>>
    decreases v.len(),
{
    if v.len() == 0 {
        Seq::empty()
    } else {
        spec_insert_sorted(v.last(), spec_sort_lex(v.drop_last()))
    }
}

/// Inserting at the first position whose entry does not precede the
/// name is exactly the sorted insertion.
proof fn lemma_insert_at_first(x: Seq<char>, v: Seq<Seq<char>>, p: int)
    requires
        0 <= p <= v.len(),
        forall|q: int| 0 <= q < p ==> lex_le(#[trigger] v[q], x),
        p < v.len() ==> !lex_le(v[p], x),
    ensures
        v.insert(p, x) == spec_insert_sorted(x, v),
    decreases v.len(),
{
    if v.len() == 0 {
        assert(v.insert(0, x) =~= seq![x]);
    } else if p == 0 {
        assert(!lex_le(v.first(), x));
        assert(v.insert(0, x) =~= seq![x] + v);
    } else {
        assert(lex_le(v.first(), x));
        let w = v.drop_first();
        assert(forall|q: int| 0 <= q < p - 1 ==> w[q] == v[q + 1]);
        if p - 1 < w.len() {
            assert(w[p - 1] == v[p as int]);
        }
        lemma_insert_at_first(x, w, p - 1);
        assert(v.insert(p, x) =~= seq![v.first()] + w.insert(p - 1, x));
    }
}

/// The lexicographic order is total.
pub proof fn lemma_lex_total(a: Seq<char>, b: Seq<char>)
    ensures
        lex_le(a, b) || lex_le(b, a),
    decreases a.len(),
{
    if a.len() > 0 && b.len() > 0 && (a[0] as u32) == (b[0] as u32) {
        lemma_lex_total(a.drop_first(), b.drop_first());
    }
}

/// The lexicographic order is transitive.
pub proof fn lemma_lex_trans(a: Seq<char>, b: Seq<char>, c: Seq<char>)
    requires
        lex_le(a, b),
        lex_le(b, c),
    ensures
        lex_le(a, c),
    decreases a.len(),
{
    if a.len() > 0 && b.len() > 0 && c.len() > 0 {
        if (a[0] as u32) == (b[0] as u32) && (b[0] as u32) == (c[0] as u32) {
            lemma_lex_trans(a.drop_first(), b.drop_first(), c.drop_first());
        }
    }
}

/// Whether a filename carries the recognized extension.
pub fn has_pdf_extension(name: &str) -> (r: bool)
    ensures
        r == spec_pdf_name(name@),
{
    let cs = str_chars(name);
    let n: usize = cs.len();
    if n <= 4 {
        return false;
    }
    proof {
        reveal_strlit(".pdf");
    }
    let ok = cs[n - 4] == '.' && cs[n - 3] == 'p' && cs[n - 2] == 'd' && cs[n - 1] == 'f';
    proof {
        if ok {
            assert(name@.subrange(n - 4, n as int) =~= ".pdf"@);
        } else {
            if name@.subrange(n - 4, n as int) == ".pdf"@ {
                assert(name@[n - 4] == ".pdf"@[0]);
                assert(name@[n - 3] == ".pdf"@[1]);
                assert(name@[n - 2] == ".pdf"@[2]);
                assert(name@[n - 1] == ".pdf"@[3]);
            }
        }
    }
    ok
}

/// Why the merge command found nothing to do.
#[derive(Debug)]
pub enum PlanError {
    /// The named input directory does not exist.
    MissingDirectory { dir: String },
    /// The directory holds no file with the recognized extension.
    NoPdfFiles { dir: String },
}

impl PlanError {
    /// The user-visible text of the error.
    pub fn message(&self) -> (r: String)
        ensures
            self matches PlanError::MissingDirectory { dir } ==> r@ == "Input directory '"@ + dir@
                + "' does not exist"@,
            self matches PlanError::NoPdfFiles { dir } ==> r@ == "No PDF files found in '"@ + dir@
                + "'"@,
    {
        match self {
            PlanError::MissingDirectory { dir } => {
                let mut s = String::from_str("Input directory '");
                s.append(dir.as_str());
                s.append("' does not exist");
                s
            },
            PlanError::NoPdfFiles { dir } => {
                let mut s = String::from_str("No PDF files found in '");
                s.append(dir.as_str());
                s.append("'");
                s
            },
        }
    }
}

/// Decide the merge command's inputs from a directory scan: fail when
/// the directory is missing or holds no document file, else hand back
/// the document filenames in lexicographic order.
#[verifier::loop_isolation(false)]
pub fn plan_merge(dir: &str, dir_exists: bool, names: &Vec<String>) -> (r: Result<
    Vec<String>,
    PlanError,
>)
    ensures
        !dir_exists ==> (r matches Err(e) && (e matches PlanError::MissingDirectory { dir: d }
            && d@ == dir@)),
        dir_exists && spec_pdf_only(names.deep_view()).len() == 0 ==> (r matches Err(e) && (
        e matches PlanError::NoPdfFiles { dir: d } && d@ == dir@)),
        dir_exists && spec_pdf_only(names.deep_view()).len() > 0 ==> (r matches Ok(v)
            && v.deep_view() == spec_sort_lex(spec_pdf_only(names.deep_view())) && sorted_lex(
            v.deep_view(),
        ) && v.deep_view().to_multiset() == spec_pdf_only(names.deep_view()).to_multiset()),
{
    if !dir_exists {
        let d = String::from_str(dir);
        return Err(PlanError::MissingDirectory { dir: d });
    }
    let ghost all: Seq<Seq<char>> = names.deep_view();
    let n: usize = names.len();
    proof {
        assert(all.len() == names@.len());
    }
    let mut kept: Vec<String> = Vec::new();
    let mut i: usize = 0;
    while i < n
        invariant
            i <= n,
            kept.deep_view() == spec_pdf_only(all.take(i as int)),
        decreases n - i,
    {
        proof {
            assert(all.take(i as int + 1).drop_last() =~= all.take(i as int));
            assert(all.take(i as int + 1).last() == all[i as int]);
            assert(all[i as int] == names@[i as int]@);
        }
        if has_pdf_extension(names[i].as_str()) {
            let owned = names[i].clone();
            kept.push(owned);
            proof {
                assert(kept.deep_view() =~= spec_pdf_only(all.take(i as int + 1)));
            }
        } else {
            proof {
                assert(kept.deep_view() =~= spec_pdf_only(all.take(i as int + 1)));
            }
        }
        i = i + 1;
    }
    proof {
        assert(all.take(n as int) =~= all);
    }
    if kept.len() == 0 {
        proof {
            assert(spec_pdf_only(all).len() == kept.deep_view().len());
        }
        let d = String::from_str(dir);
        return Err(PlanError::NoPdfFiles { dir: d });
    }
    let ghost pool: Seq<Seq<char>> = kept.deep_view();
    let m: usize = kept.len();
    let mut out: Vec<String> = Vec::new();
    let mut k: usize = 0;
    while k < m
        invariant
            k <= m,
            m == kept@.len(),
            pool == kept.deep_view(),
            kept.deep_view() == spec_pdf_only(all),
            sorted_lex(out.deep_view()),
            out.deep_view() == spec_sort_lex(pool.take(k as int)),
            out.deep_view().to_multiset() == pool.take(k as int).to_multiset(),
            out.deep_view().len() == k,
        decreases m - k,
    {
        let name = kept[k].clone();
        proof {
            assert(name@ == pool[k as int]);
        }
        let olen: usize = out.len();
        let mut p: usize = 0;
        while p < olen && str_le(out[p].as_str(), name.as_str())
            invariant
                p <= olen,
                olen == out@.len(),
                forall|q: int| 0 <= q < p ==> lex_le(#[trigger] out.deep_view()[q], name@),
            decreases olen - p,
        {
            proof {
                assert(out.deep_view()[p as int] == out@[p as int]@);
            }
            p = p + 1;
        }
        proof {
            if p < olen {
                assert(out.deep_view()[p as int] == out@[p as int]@);
                lemma_lex_total(out.deep_view()[p as int], name@);
            }
        }
        let ghost before: Seq<Seq<char>> = out.deep_view();
        proof {
            if p < olen {
                assert(!lex_le(before[p as int], name@));
            }
            lemma_insert_at_first(name@, before, p as int);
            assert(pool.take(k as int + 1).drop_last() =~= pool.take(k as int));
            assert(pool.take(k as int + 1).last() == pool[k as int]);
        }
        out.insert(p, name);
        proof {
            assert(out.deep_view() =~= before.insert(p as int, name@));
            assert forall|x: int, y: int|
                0 <= x < y < out.deep_view().len() implies lex_le(
                #[trigger] out.deep_view()[x],
                #[trigger] out.deep_view()[y],
            ) by {
                let dv = out.deep_view();
                if y < p {
                } else if x < p && y == p {
                } else if x < p && y > p {
                } else if x == p {
                    assert(dv[y] == before[y - 1]);
                    assert(y - 1 >= p);
                    if y - 1 == p {
                    } else {
                        lemma_lex_trans(name@, before[p as int], before[y - 1]);
                    }
                } else {
                }
            }
            assert(before.insert(p as int, name@).to_multiset() == before.to_multiset().insert(
                name@,
            ));
            assert(pool.take(k as int + 1) =~= pool.take(k as int).push(name@));
            assert(pool.take(k as int).push(name@).to_multiset() =~= pool.take(
                k as int,
            ).to_multiset().insert(name@));
            assert(out.deep_view().to_multiset() == pool.take(k as int + 1).to_multiset());
        }
        k = k + 1;
    }
    proof {
        assert(pool.take(m as int) =~= pool);
    }
    Ok(out)
}

} // verus!
