use vstd::prelude::*;
use vstd::multiset::Multiset;

use crate::object::{
    encode_of, mode_dir, mode_exe, mode_reg, str_bytes, wf_entries, wf_entry, Entry, EntryModel,
    InvalidObjectFormat, Object, ObjectModel,
};
use crate::store::object_hash;

verus! {

/// Byte-wise lexicographic order, the order of tree entries.
pub open spec fn lex_le(a: Seq<u8>, b: Seq<u8>) -> bool
    decreases a.len(),
{
    if a.len() == 0 {
        true
    } else if b.len() == 0 {
        false
    } else if a[0] < b[0] {
        true
    } else if a[0] > b[0] {
        false
    } else {
        lex_le(a.drop_first(), b.drop_first())
    }
}

/// Entries order by their filename bytes.
pub open spec fn entry_le(a: EntryModel, b: EntryModel) -> bool {
    lex_le(a.filename, b.filename)
}

/// Entries in filename-ascending order: the canonical form of a tree.
pub open spec fn entries_sorted(s: Seq<EntryModel>) -> bool {
    forall|i: int, j: int| 0 <= i < j < s.len() ==> entry_le(#[trigger] s[i], #[trigger] s[j])
}

/// No two entries share a filename.
pub open spec fn distinct_filenames(s: Seq<EntryModel>) -> bool {
    forall|i: int, j: int|
        0 <= i < j < s.len() ==> (#[trigger] s[i]).filename != (#[trigger] s[j]).filename
}

pub proof fn lemma_lex_total(a: Seq<u8>, b: Seq<u8>)
    ensures
        lex_le(a, b) || lex_le(b, a),
        (lex_le(a, b) && lex_le(b, a)) ==> a == b,
    decreases a.len(),
{
    if a.len() > 0 && b.len() > 0 && a[0] == b[0] {
        lemma_lex_total(a.drop_first(), b.drop_first());
        if lex_le(a, b) && lex_le(b, a) {
            assert(a =~= seq![a[0]] + a.drop_first());
            assert(b =~= seq![b[0]] + b.drop_first());
        }
    } else if a.len() > 0 && b.len() > 0 && lex_le(a, b) && lex_le(b, a) {
        assert(false);
    } else if a.len() == 0 && b.len() == 0 && lex_le(a, b) && lex_le(b, a) {
        assert(a =~= b);
    }
}

pub proof fn lemma_lex_trans(a: Seq<u8>, b: Seq<u8>, c: Seq<u8>)
    requires
        lex_le(a, b),
        lex_le(b, c),
    ensures
        lex_le(a, c),
    decreases a.len(),
{
    if a.len() > 0 && b.len() > 0 && c.len() > 0 && a[0] == b[0] && b[0] == c[0] {
        lemma_lex_trans(a.drop_first(), b.drop_first(), c.drop_first());
    }
}

/// Lexicographic comparison of byte slices, executable form.
fn bytes_le(a: &[u8], b: &[u8]) -> (r: bool)
    ensures
        r == lex_le(a@, b@),
{
    let mut i: usize = 0;
    proof {
        assert(a@.skip(0) =~= a@);
        assert(b@.skip(0) =~= b@);
    }
    while i < a.len() && i < b.len()
        invariant
            i <= a@.len(),
            i <= b@.len(),
            lex_le(a@, b@) == lex_le(a@.skip(i as int), b@.skip(i as int)),
            lex_le(b@, a@) == lex_le(b@.skip(i as int), a@.skip(i as int)),
        decreases a@.len() - i,
    {
        let x = a[i];
        let y = b[i];
        if x < y {
            assert(a@.skip(i as int)[0] == x && b@.skip(i as int)[0] == y);
            return true;
        }
        if x > y {
            assert(a@.skip(i as int)[0] == x && b@.skip(i as int)[0] == y);
            return false;
        }
        proof {
            assert(a@.skip(i as int)[0] == x && b@.skip(i as int)[0] == y);
            assert(a@.skip(i as int).drop_first() =~= a@.skip(i as int + 1));
            assert(b@.skip(i as int).drop_first() =~= b@.skip(i as int + 1));
        }
        i = i + 1;
    }
    proof {
        if i == a@.len() {
            assert(a@.skip(i as int).len() == 0);
        } else {
            assert(b@.skip(i as int).len() == 0);
            assert(a@.skip(i as int).len() > 0);
        }
    }
    a.len() <= b.len()
}

/// Order of two entries by filename, executable form.
fn entry_filename_le(a: &Entry, b: &Entry) -> (r: bool)
    ensures
        r == entry_le(a@, b@),
{
    bytes_le(a.filename().as_bytes(), b.filename().as_bytes())
}

pub proof fn lemma_insert_multiset(s: Seq<EntryModel>, k: int, e: EntryModel)
    requires
        0 <= k <= s.len(),
    ensures
        s.insert(k, e).to_multiset() == s.to_multiset().insert(e),
{
    vstd::seq_lib::to_multiset_insert(s, k, e);
}

pub proof fn lemma_sorted_insert(s: Seq<EntryModel>, k: int, e: EntryModel)
    requires
        entries_sorted(s),
        0 <= k <= s.len(),
        forall|j: int| 0 <= j < k ==> entry_le(#[trigger] s[j], e),
        k < s.len() ==> entry_le(e, s[k]),
    ensures
        entries_sorted(s.insert(k, e)),
{
    let t = s.insert(k, e);
    s.insert_ensures(k, e);
    assert forall|i: int, j: int| 0 <= i < j < t.len() implies entry_le(t[i], t[j]) by {
        if i < k && j < k {
            assert(t[i] == s[i] && t[j] == s[j]);
        } else if i < k && j == k {
            assert(t[i] == s[i] && t[j] == e);
        } else if i < k && j > k {
            assert(t[i] == s[i] && t[j] == s[j - 1]);
        } else if i == k && j > k {
            assert(t[i] == e && t[j] == s[j - 1]);
            assert(entry_le(e, s[k]));
            assert(k <= j - 1 < s.len());
            if k < j - 1 {
                assert(entry_le(s[k], s[j - 1]));
                lemma_lex_trans(e.filename, s[k].filename, s[j - 1].filename);
            }
        } else {
            assert(i > k && j > k);
            assert(t[i] == s[i - 1] && t[j] == s[j - 1]);
        }
    }
}

/// Gathers a directory's entries one child at a time, then seals them into a
/// canonically ordered tree object.
pub struct TreeBuilder {
    entries: Vec<Entry>,
}

impl View for TreeBuilder {
    type V = Seq<EntryModel>;

    closed spec fn view(&self) -> Seq<EntryModel> {
        self.entries@.map_values(|e: Entry| e@)
    }
}

proof fn lemma_mode_literal_dir()
    ensures
        str_bytes("040000"@) == mode_dir(),
{
    reveal_strlit("040000");
    assert(vstd::utf8::is_ascii_chars("040000"@));
    vstd::utf8::is_ascii_chars_encode_utf8("040000"@);
    assert(str_bytes("040000"@) =~= mode_dir());
}

proof fn lemma_mode_literal_reg()
    ensures
        str_bytes("100644"@) == mode_reg(),
{
    reveal_strlit("100644");
    assert(vstd::utf8::is_ascii_chars("100644"@));
    vstd::utf8::is_ascii_chars_encode_utf8("100644"@);
    assert(str_bytes("100644"@) =~= mode_reg());
}

proof fn lemma_mode_literal_exe()
    ensures
        str_bytes("100755"@) == mode_exe(),
{
    reveal_strlit("100755");
    assert(vstd::utf8::is_ascii_chars("100755"@));
    vstd::utf8::is_ascii_chars_encode_utf8("100755"@);
    assert(str_bytes("100755"@) =~= mode_exe());
}

impl TreeBuilder {
    pub fn new() -> (r: TreeBuilder)
        ensures
            r@ == Seq::<EntryModel>::empty(),
    {
        let r = TreeBuilder { entries: Vec::new() };
        proof {
            assert(r@ =~= Seq::<EntryModel>::empty());
        }
        r
    }

    /// Appends a subdirectory entry under its tree hash.
    pub fn add_directory(&mut self, filename: &str, hash: &str) -> (r: Result<
        (),
        InvalidObjectFormat,
    >)
        ensures
            r is Ok <==> wf_entry(
                EntryModel {
                    mode: mode_dir(),
                    filename: str_bytes(filename@),
                    hash: str_bytes(hash@),
                },
            ),
            r is Ok ==> final(self)@ == old(self)@.push(
                EntryModel {
                    mode: mode_dir(),
                    filename: str_bytes(filename@),
                    hash: str_bytes(hash@),
                },
            ),
            r is Err ==> final(self)@ == old(self)@,
    {
        proof {
            lemma_mode_literal_dir();
        }
        match Entry::new("040000", filename, hash) {
            Ok(e) => {
                self.entries.push(e);
                proof {
                    assert(self@ =~= old(self)@.push(e@));
                }
                Ok(())
            },
            Err(err) => Err(err),
        }
    }

    /// Appends a file entry under its blob hash, executable or plain.
    pub fn add_file(&mut self, filename: &str, executable: bool, hash: &str) -> (r: Result<
        (),
        InvalidObjectFormat,
    >)
        ensures
            r is Ok <==> wf_entry(
                EntryModel {
                    mode: if executable {
                        mode_exe()
                    } else {
                        mode_reg()
                    },
                    filename: str_bytes(filename@),
                    hash: str_bytes(hash@),
                },
            ),
            r is Ok ==> final(self)@ == old(self)@.push(
                EntryModel {
                    mode: if executable {
                        mode_exe()
                    } else {
                        mode_reg()
                    },
                    filename: str_bytes(filename@),
                    hash: str_bytes(hash@),
                },
            ),
            r is Err ==> final(self)@ == old(self)@,
    {
        proof {
            lemma_mode_literal_reg();
            lemma_mode_literal_exe();
        }
        let mode: &str = if executable {
            "100755"
        } else {
            "100644"
        };
        match Entry::new(mode, filename, hash) {
            Ok(e) => {
                self.entries.push(e);
                proof {
                    assert(self@ =~= old(self)@.push(e@));
                }
                Ok(())
            },
            Err(err) => Err(err),
        }
    }

    /// Seals the gathered entries into a tree object, sorted by filename
    /// ascending: the canonical form, whatever order the children came in.
    pub fn finish(self) -> (r: Object)
        ensures
            match r@ {
                ObjectModel::Tree { entries } => entries_sorted(entries)
                    && entries.to_multiset() == self@.to_multiset() && (wf_entries(self@)
                    ==> wf_entries(entries)),
                _ => false,
            },
    {
        broadcast use vstd::seq_lib::group_to_multiset_ensures;
        broadcast use vstd::multiset::group_multiset_axioms;

        let ghost orig = self@;
        let TreeBuilder { entries } = self;
        let mut pending = entries;
        let mut out: Vec<Entry> = Vec::new();
        proof {
            assert(pending@.map_values(|e: Entry| e@) == orig);
            assert(out@.map_values(|e: Entry| e@) =~= Seq::<EntryModel>::empty());
        }
        while pending.len() > 0
            invariant
                entries_sorted(out@.map_values(|e: Entry| e@)),
                out@.map_values(|e: Entry| e@).to_multiset().add(
                    pending@.map_values(|e: Entry| e@).to_multiset(),
                ) == orig.to_multiset(),
            decreases pending@.len(),
        {
            let ghost pm = pending@.map_values(|e: Entry| e@);
            let e = pending.pop().unwrap();
            let ghost pm2 = pending@.map_values(|x: Entry| x@);
            proof {
                assert(pm =~= pm2.push(e@));
                vstd::seq_lib::to_multiset_build(pm2, e@);
                assert(pm.to_multiset() =~= pm2.to_multiset().insert(e@));
            }
            let ghost om = out@.map_values(|x: Entry| x@);
            let mut k: usize = 0;
            while k < out.len() && entry_filename_le(&out[k], &e)
                invariant
                    k <= out@.len(),
                    om == out@.map_values(|x: Entry| x@),
                    forall|j: int| 0 <= j < k ==> entry_le(#[trigger] om[j], e@),
                decreases out@.len() - k,
            {
                proof {
                    assert(om[k as int] == out@[k as int]@);
                }
                k = k + 1;
            }
            proof {
                if k < out@.len() {
                    assert(!entry_le(om[k as int], e@));
                    lemma_lex_total(e@.filename, om[k as int].filename);
                    assert(entry_le(e@, om[k as int]));
                }
                lemma_sorted_insert(om, k as int, e@);
                lemma_insert_multiset(om, k as int, e@);
            }
            out.insert(k, e);
            proof {
                assert(out@.map_values(|x: Entry| x@) =~= om.insert(k as int, e@));
            }
        }
        proof {
            assert(pending@.map_values(|e: Entry| e@).to_multiset() =~= Multiset::<
                EntryModel,
            >::empty()) by {
                assert(pending@.map_values(|e: Entry| e@).len() == 0);
                assert(pending@.map_values(|e: Entry| e@) =~= Seq::<EntryModel>::empty());
            }
            assert(out@.map_values(|e: Entry| e@).to_multiset().add(
                Multiset::<EntryModel>::empty(),
            ) =~= out@.map_values(|e: Entry| e@).to_multiset());
            assert(out@.map_values(|e: Entry| e@).to_multiset() =~= orig.to_multiset());
        }
        let r = Object::Tree(out);
        proof {
            let sorted = r@->Tree_entries;
            if wf_entries(orig) {
                assert forall|i: int| 0 <= i < sorted.len() implies wf_entry(
                    #[trigger] sorted[i],
                ) by {
                    assert(sorted.to_multiset().contains(sorted[i]));
                    assert(orig.to_multiset().contains(sorted[i]));
                    assert(orig.contains(sorted[i]));
                    let w = choose|w: int| 0 <= w < orig.len() && orig[w] == sorted[i];
                    assert(wf_entry(orig[w]));
                }
            }
        }
        r
    }
}

/// Any two same-multiset sorted entry sequences with pairwise distinct
/// filenames are one and the same sequence.
pub proof fn lemma_canonical_form(x: Seq<EntryModel>, y: Seq<EntryModel>)
    requires
        entries_sorted(x),
        entries_sorted(y),
        x.to_multiset() == y.to_multiset(),
        distinct_filenames(x),
    ensures
        x == y,
    decreases x.len(),
{
    broadcast use vstd::seq_lib::group_to_multiset_ensures;
    broadcast use vstd::multiset::group_multiset_axioms;

    if x.len() == 0 {
        vstd::seq_lib::to_multiset_len(x);
        vstd::seq_lib::to_multiset_len(y);
        assert(y =~= Seq::<EntryModel>::empty());
        assert(x =~= y);
    } else {
        vstd::seq_lib::to_multiset_len(x);
        vstd::seq_lib::to_multiset_len(y);
        assert(y.len() > 0);
        vstd::seq_lib::to_multiset_contains(x, x[0]);
        vstd::seq_lib::to_multiset_contains(y, x[0]);
        vstd::seq_lib::to_multiset_contains(x, y[0]);
        assert(x.contains(x[0]));
        assert(y.contains(x[0]));
        assert(x.contains(y[0]));
        let i = choose|i: int| 0 <= i < x.len() && x[i] == y[0];
        let j = choose|j: int| 0 <= j < y.len() && y[j] == x[0];
        if i == 0 {
            assert(x[0] == y[0]);
        } else {
            assert(entry_le(x[0], x[i]));
            assert(entry_le(y[0], y[j]));
            lemma_lex_total(x[0].filename, y[0].filename);
            assert(lex_le(x[0].filename, y[0].filename) && lex_le(y[0].filename, x[0].filename));
            assert(x[0].filename == y[0].filename);
            assert(x[i].filename == x[0].filename);
            assert(false);
        }
        let xr = x.drop_first();
        let yr = y.drop_first();
        assert(xr =~= x.remove(0));
        vstd::seq_lib::to_multiset_remove(x, 0);
        assert(yr =~= y.remove(0));
        vstd::seq_lib::to_multiset_remove(y, 0);
        assert(entries_sorted(xr)) by {
            assert(forall|p: int, q: int|
                0 <= p < q < xr.len() ==> entry_le(#[trigger] xr[p], #[trigger] xr[q]));
        }
        assert(entries_sorted(yr)) by {
            assert(forall|p: int, q: int|
                0 <= p < q < yr.len() ==> entry_le(#[trigger] yr[p], #[trigger] yr[q]));
        }
        assert(distinct_filenames(xr)) by {
            assert(forall|p: int, q: int|
                0 <= p < q < xr.len() ==> (#[trigger] xr[p]).filename != (
                #[trigger] xr[q]).filename);
        }
        lemma_canonical_form(xr, yr);
        assert(x =~= seq![x[0]] + xr);
        assert(y =~= seq![y[0]] + yr);
        assert(x =~= y);
    }
}

/// Canonical ordering: permutations of one filename-distinct child set have
/// a single sorted form, so the trees built from them encode to the same
/// bytes and carry the same hash.
pub proof fn lemma_canonical_tree(x: Seq<EntryModel>, y: Seq<EntryModel>)
    requires
        entries_sorted(x),
        entries_sorted(y),
        x.to_multiset() == y.to_multiset(),
        distinct_filenames(x),
    ensures
        encode_of(ObjectModel::Tree { entries: x }) == encode_of(ObjectModel::Tree { entries: y }),
        object_hash(ObjectModel::Tree { entries: x }) == object_hash(
            ObjectModel::Tree { entries: y },
        ),
{
    lemma_canonical_form(x, y);
}

} // verus!
