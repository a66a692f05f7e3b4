//! `prio prs`: the open pull requests, each marked applied or not.
use vstd::prelude::*;
use vstd::string::{StrSliceExecFns, StringExecFns};
use crate::strings::{concat2, concat3, contains_string, decimal, decimal_string, lemma_decimal_len, owned, views};

verus! {

/// An open pull request as `gh pr list` reports it.
pub struct PrEntry {
    pub number: u64,
    pub title: String,
    /// The pull request's branch.
    pub head_ref: String,
}

/// `n` spaces.
pub open spec fn spaces(n: nat) -> Seq<char> {
    Seq::new(n, |i: int| ' ')
}

/// `s` padded with spaces on the right to `width` characters (`{:<width$}`).
pub open spec fn pad_right_spec(s: Seq<char>, width: nat) -> Seq<char> {
    if s.len() < width {
        s + spaces((width - s.len()) as nat)
    } else {
        s
    }
}

pub fn pad_right(s: &str, width: usize) -> (r: String)
    ensures
        r@ == pad_right_spec(s@, width as nat),
{
    let mut r = owned(s);
    let len = s.unicode_len();
    if len < width {
        let mut k: usize = len;
        while k < width
            invariant
                len == s@.len(),
                len <= k <= width,
                r@ == s@ + spaces((k - len) as nat),
            decreases width - k,
        {
            r.push(' ');
            proof {
                assert(r@ =~= s@ + spaces((k + 1 - len) as nat));
            }
            k = k + 1;
        }
    }
    r
}

/// The widest `#<number>` among the pull requests.
pub open spec fn number_width(prs: Seq<PrEntry>) -> nat
    decreases prs.len(),
{
    if prs.len() == 0 {
        0
    } else {
        let w = number_width(prs.drop_last());
        let n = decimal(prs.last().number as nat).len() + 1;
        if n > w { n } else { w }
    }
}

/// A branch name's length in bytes, as UTF-8 (`str::len`).
pub open spec fn byte_len(s: Seq<char>) -> nat {
    vstd::utf8::encode_utf8(s).len()
}

/// Every branch name's byte length fits in `usize`.
pub open spec fn byte_lens_fit(prs: Seq<PrEntry>) -> bool {
    forall|k: int| 0 <= k < prs.len() ==> byte_len(#[trigger] prs[k].head_ref@) <= usize::MAX
}

/// The longest branch name among the pull requests, in bytes.
pub open spec fn branch_len(prs: Seq<PrEntry>) -> nat
    decreases prs.len(),
{
    if prs.len() == 0 {
        0
    } else {
        let w = branch_len(prs.drop_last());
        let n = byte_len(prs.last().head_ref@);
        if n > w { n } else { w }
    }
}

/// The branch column's width: the longest branch name in bytes, at most 40.
pub open spec fn branch_width(prs: Seq<PrEntry>) -> nat {
    if branch_len(prs) < 40 { branch_len(prs) } else { 40 }
}

/// One listed pull request.
pub open spec fn pr_row(p: PrEntry, applied: bool, nw: nat, bw: nat) -> Seq<char> {
    " "@ + (if applied { "✅ applied  "@ } else { "⬜ unapplied"@ }) + "  "@
        + pad_right_spec("#"@ + decimal(p.number as nat), nw) + "  "@ + pad_right_spec(p.head_ref@, bw)
        + "  "@ + p.title@
}

/// The pull request the usage hint names: the first one not applied, else the
/// first one, else 1.
pub open spec fn example_spec(prs: Seq<PrEntry>, applied: Seq<Seq<char>>) -> u64
    decreases prs.len(),
{
    if prs.len() == 0 {
        1
    } else if !applied.contains(prs[0].head_ref@) {
        prs[0].number
    } else {
        let rest = example_unapplied(prs.drop_first(), applied);
        match rest {
            Some(n) => n,
            None => prs[0].number,
        }
    }
}

/// The number of the first pull request whose branch is not applied.
pub open spec fn example_unapplied(prs: Seq<PrEntry>, applied: Seq<Seq<char>>) -> Option<u64>
    decreases prs.len(),
{
    if prs.len() == 0 {
        None
    } else if !applied.contains(prs[0].head_ref@) {
        Some(prs[0].number)
    } else {
        example_unapplied(prs.drop_first(), applied)
    }
}

/// The lines `prio prs` prints.
pub open spec fn pr_list_spec(prs: Seq<PrEntry>, applied: Seq<Seq<char>>) -> Seq<Seq<char>> {
    if prs.len() == 0 {
        seq!["No open pull requests."@]
    } else {
        Seq::new(prs.len(), |i: int| pr_row(prs[i], applied.contains(prs[i].head_ref@), number_width(prs), branch_width(prs)))
            + seq![Seq::empty(), "To apply a PR:  prio apply pr-"@ + decimal(example_spec(prs, applied) as nat)]
    }
}

fn widths(prs: &Vec<PrEntry>) -> (r: (usize, usize))
    requires
        byte_lens_fit(prs@),
    ensures
        r.0 == number_width(prs@),
        r.1 == branch_width(prs@),
{
    let mut nw: usize = 0;
    let mut bl: usize = 0;
    let mut i: usize = 0;
    while i < prs.len()
        invariant
            i <= prs.len(),
            nw == number_width(prs@.take(i as int)),
            bl == branch_len(prs@.take(i as int)),
            byte_lens_fit(prs@),
        decreases prs.len() - i,
    {
        proof {
            assert(prs@.take(i + 1).drop_last() =~= prs@.take(i as int));
        }
        let d = decimal_string(prs[i].number);
        proof {
            lemma_decimal_len(prs@[i as int].number as nat);
        }
        let n = d.as_str().unicode_len() + 1;
        if n > nw {
            nw = n;
        }
        let h = prs[i].head_ref.as_str().len();
        proof {
            assert(byte_len(prs@[i as int].head_ref@) <= usize::MAX);
        }
        if h > bl {
            bl = h;
        }
        i = i + 1;
    }
    proof {
        assert(prs@.take(prs@.len() as int) =~= prs@);
    }
    let bw = if bl < 40 { bl } else { 40 };
    (nw, bw)
}

/// The usage hint's pull request number.
pub fn example_pr(prs: &Vec<PrEntry>, applied: &Vec<String>) -> (r: u64)
    ensures
        r == example_spec(prs@, views(applied@)),
{
    if prs.len() == 0 {
        return 1;
    }
    let mut i: usize = 0;
    proof {
        assert(prs@.skip(0) =~= prs@);
    }
    while i < prs.len()
        invariant
            0 < prs.len(),
            i <= prs.len(),
            forall|k: int| 0 <= k < i ==> views(applied@).contains(#[trigger] prs@[k].head_ref@),
            example_unapplied(prs@, views(applied@)) == example_unapplied(prs@.skip(i as int), views(applied@)),
        decreases prs.len() - i,
    {
        proof {
            assert(prs@.skip(i as int).drop_first() =~= prs@.skip(i + 1));
        }
        if !contains_string(applied, prs[i].head_ref.as_str()) {
            proof {
                if i > 0 {
                    assert(views(applied@).contains(prs@[0].head_ref@));
                    assert(example_unapplied(prs@, views(applied@)) == example_unapplied(prs@.drop_first(), views(applied@)));
                }
            }
            return prs[i].number;
        }
        i = i + 1;
    }
    proof {
        assert(views(applied@).contains(prs@[0].head_ref@));
    }
    prs[0].number
}

/// The lines `prio prs` prints for the open pull requests and the applied
/// branches: one per pull request, aligned, then an empty line and a usage hint.
/// The branch column is as wide as the longest branch name in bytes (at most 40),
/// and each name is padded to that many characters.
pub fn pr_list_lines(prs: &Vec<PrEntry>, applied: &Vec<String>) -> (r: Vec<String>)
    requires
        byte_lens_fit(prs@),
    ensures
        views(r@) == pr_list_spec(prs@, views(applied@)),
{
    let mut r: Vec<String> = Vec::new();
    if prs.len() == 0 {
        r.push(String::from_str("No open pull requests."));
        proof {
            assert(views(r@) =~= pr_list_spec(prs@, views(applied@)));
        }
        return r;
    }
    let (nw, bw) = widths(prs);
    let ghost rows = Seq::new(prs@.len(), |i: int| pr_row(prs@[i], views(applied@).contains(prs@[i].head_ref@), nw as nat, bw as nat));
    let mut i: usize = 0;
    while i < prs.len()
        invariant
            i <= prs.len(),
            rows.len() == prs@.len(),
            forall|k: int| 0 <= k < prs@.len() ==> rows[k] == pr_row(prs@[k], views(applied@).contains(prs@[k].head_ref@), nw as nat, bw as nat),
            views(r@) == rows.take(i as int),
        decreases prs.len() - i,
    {
        let p = &prs[i];
        let is_applied = contains_string(applied, p.head_ref.as_str());
        let mark = if is_applied { String::from_str("✅ applied  ") } else { String::from_str("⬜ unapplied") };
        let num = concat2("#", decimal_string(p.number).as_str());
        let num_col = pad_right(num.as_str(), nw);
        let branch_col = pad_right(p.head_ref.as_str(), bw);
        let a = concat3(" ", mark.as_str(), "  ");
        let b = concat3(a.as_str(), num_col.as_str(), "  ");
        let c = concat3(b.as_str(), branch_col.as_str(), "  ");
        let line = concat2(c.as_str(), p.title.as_str());
        proof {
            reveal_strlit("✅ applied  ");
            reveal_strlit("⬜ unapplied");
            assert(line@ =~= rows[i as int]);
        }
        let ghost before = r@;
        r.push(line);
        proof {
            assert(views(r@) =~= views(before).push(rows[i as int]));
            assert(views(r@) =~= rows.take(i + 1));
        }
        i = i + 1;
    }
    r.push(String::new());
    let ex = decimal_string(example_pr(prs, applied));
    r.push(concat2("To apply a PR:  prio apply pr-", ex.as_str()));
    proof {
        assert(rows.take(prs@.len() as int) =~= rows);
        assert(views(r@) =~= pr_list_spec(prs@, views(applied@)));
    }
    r
}

} // verus!
