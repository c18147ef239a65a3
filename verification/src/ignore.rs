use vstd::prelude::*;
use vstd::slice::{slice_subrange, slice_to_vec};
use vstd::string::StringSliceAdditionalSpecFns;

use crate::object::str_bytes;
use crate::scan::{find_byte, lemma_find_byte_props, scan_byte};

verus! {

/// Lines of an exclusion list that count: split at newlines, dropping empty
/// lines and comment lines that open with '#'.
pub open spec fn exclusion_lines(content: Seq<u8>) -> Seq<Seq<u8>>
    decreases content.len()
    via exclusion_lines_decreases
{
    if content.len() == 0 {
        Seq::empty()
    } else {
        let nl = find_byte(content, 0x0a);
        if nl < 0 {
            kept_line(content)
        } else {
            kept_line(content.take(nl)) + exclusion_lines(content.skip(nl + 1))
        }
    }
}

/// A line is kept when it is non-empty and is no comment.
pub open spec fn kept_line(line: Seq<u8>) -> Seq<Seq<u8>> {
    if line.len() > 0 && line[0] != 0x23 {
        seq![line]
    } else {
        Seq::empty()
    }
}

#[via_fn]
proof fn exclusion_lines_decreases(content: Seq<u8>) {
    lemma_find_byte_props(content, 0x0a);
}

/// The kept lines of an exclusion list, executable form.
pub fn parse_exclusion_lines(content: &[u8]) -> (r: Vec<Vec<u8>>)
    ensures
        r@.map_values(|v: Vec<u8>| v@) == exclusion_lines(content@),
{
    let mut out: Vec<Vec<u8>> = Vec::new();
    let mut cur: &[u8] = content;
    while cur.len() > 0
        invariant
            exclusion_lines(content@) == out@.map_values(|v: Vec<u8>| v@) + exclusion_lines(cur@),
        decreases cur@.len(),
    {
        let ghost done = out@.map_values(|v: Vec<u8>| v@);
        proof {
            lemma_find_byte_props(cur@, 0x0a);
        }
        let n = cur.len();
        let (line, next): (&[u8], &[u8]) = match scan_byte(cur, 0x0a) {
            Some(nl) => {
                assert(nl < n);
                (slice_subrange(cur, 0, nl), slice_subrange(cur, nl + 1, n))
            },
            None => (cur, slice_subrange(cur, n, n)),
        };
        let ghost lm = line@;
        if line.len() > 0 && line[0] != 0x23 {
            out.push(slice_to_vec(line));
            proof {
                assert(out@.map_values(|v: Vec<u8>| v@) =~= done.push(lm));
                assert(done.push(lm) =~= done + kept_line(lm));
            }
        } else {
            proof {
                assert(kept_line(lm) =~= Seq::<Seq<u8>>::empty());
                assert(done + kept_line(lm) =~= done);
            }
        }
        proof {
            if find_byte(cur@, 0x0a) < 0 {
                assert(next@.len() == 0);
                assert(exclusion_lines(next@) =~= Seq::<Seq<u8>>::empty());
                assert(exclusion_lines(cur@) =~= kept_line(lm) + exclusion_lines(next@));
            } else {
                assert(exclusion_lines(cur@) =~= kept_line(lm) + exclusion_lines(next@));
            }
            assert(done + (kept_line(lm) + exclusion_lines(next@)) =~= (done + kept_line(lm))
                + exclusion_lines(next@));
        }
        cur = next;
    }
    proof {
        assert(exclusion_lines(cur@) =~= Seq::<Seq<u8>>::empty());
        assert(out@.map_values(|v: Vec<u8>| v@) + exclusion_lines(cur@) =~= out@.map_values(
            |v: Vec<u8>| v@,
        ));
    }
    out
}

/// The path with its trailing separators stripped.
pub open spec fn trim_slashes(s: Seq<u8>) -> Seq<u8>
    decreases s.len(),
{
    if s.len() > 0 && s.last() == 0x2f {
        trim_slashes(s.drop_last())
    } else {
        s
    }
}

/// Strips trailing separators, executable form.
pub fn trim_trailing_slashes(s: &[u8]) -> (r: Vec<u8>)
    ensures
        r@ == trim_slashes(s@),
{
    let mut end: usize = s.len();
    proof {
        assert(s@.take(s@.len() as int) =~= s@);
    }
    while end > 0 && s[end - 1] == 0x2f
        invariant
            end <= s@.len(),
            trim_slashes(s@) == trim_slashes(s@.take(end as int)),
        decreases end,
    {
        proof {
            assert(s@.take(end as int).last() == s@[end - 1]);
            assert(s@.take(end as int).drop_last() =~= s@.take(end as int - 1));
        }
        end = end - 1;
    }
    proof {
        if end > 0 {
            assert(s@.take(end as int).last() == s@[end - 1]);
        }
        assert(trim_slashes(s@.take(end as int)) == s@.take(end as int));
    }
    slice_to_vec(slice_subrange(s, 0, end))
}

/// Relies on std::path::absolute, which resolves a path against the process's
/// current working directory. The result depends on that ambient state, so
/// nothing is claimed of it; callers state what holds of every outcome.
#[verifier::external_body]
fn absolutize(path: &str) -> (r: Option<String>)
{
    match std::path::absolute(path) {
        Ok(p) => match p.to_str() {
            Some(s) => Some(s.to_string()),
            None => None,
        },
        Err(_) => None,
    }
}

/// True exactly when the two byte slices hold the same bytes.
fn bytes_eq(a: &[u8], b: &[u8]) -> (r: bool)
    ensures
        r == (a@ == b@),
{
    if a.len() != b.len() {
        return false;
    }
    let mut i: usize = 0;
    while i < a.len()
        invariant
            a@.len() == b@.len(),
            i <= a@.len(),
            forall|j: int| 0 <= j < i ==> a@[j] == b@[j],
        decreases a@.len() - i,
    {
        if a[i] != b[i] {
            return false;
        }
        i = i + 1;
    }
    proof {
        assert(a@ =~= b@);
    }
    true
}

/// The set of absolute paths excluded from tree construction. Matching is
/// exact: a path is excluded only when its absolute form equals a stored
/// path letter for letter; prefix or pattern matching plays no part.
pub struct Ignore {
    entries: Vec<Vec<u8>>,
}

impl View for Ignore {
    type V = Set<Seq<u8>>;

    closed spec fn view(&self) -> Set<Seq<u8>> {
        self.entries@.map_values(|v: Vec<u8>| v@).to_set()
    }
}

/// Whether a path, already in absolute form, is excluded.
pub open spec fn spec_excluded(ig: Ignore, path: Seq<u8>) -> bool {
    ig@.contains(path)
}

/// The kept lines of the exclusion list's text, or none where no list was
/// found.
pub open spec fn kept_lines_of(content: Option<&str>) -> Seq<Seq<u8>> {
    match content {
        Some(c) => exclusion_lines(str_bytes(c@)),
        None => Seq::empty(),
    }
}

/// How an exclusion set is put together: some of the kept lines resolved
/// (at most all of them, since an unresolvable line yields no entry), each
/// resolution stripped of trailing separators, and after them, when it
/// resolved, the metadata directory's path.
pub open spec fn assembled_from(
    r: Ignore,
    kept: Seq<Seq<u8>>,
    res: Seq<Seq<u8>>,
    meta: Option<Seq<u8>>,
) -> bool {
    res.len() <= kept.len() && r@ == (match meta {
        Some(g) => res.map_values(|a: Seq<u8>| trim_slashes(a)).push(g),
        None => res.map_values(|a: Seq<u8>| trim_slashes(a)),
    }).to_set()
}

impl Ignore {
    /// Builds the exclusion set from the exclusion list's text, if one was
    /// found: each kept line is resolved to an absolute path and stripped of
    /// trailing separators; a line that cannot be resolved, or is not UTF-8,
    /// is dropped, as an unresolvable path can never be met during a walk.
    /// The store's own metadata directory is always excluded when its own
    /// path resolves. What each resolution returns depends on the process's
    /// working directory, so the contract binds the set's shape to the kept
    /// lines through an existential over the resolution outcomes; the exact
    /// statements about parsing, trimming and matching stand on
    /// `parse_exclusion_lines`, `trim_trailing_slashes` and
    /// `contains_resolved`.
    pub fn new(content: Option<&str>) -> (r: Ignore)
        ensures
            exists|res: Seq<Seq<u8>>, meta: Option<Seq<u8>>|
                assembled_from(r, kept_lines_of(content), res, meta),
            content is None ==> r@.finite() && r@.len() <= 1,
    {
        let ghost kept = kept_lines_of(content);
        let mut ig = Ignore { entries: Vec::new() };
        let ghost mut resolved = Seq::<Seq<u8>>::empty();
        proof {
            assert(ig.entries@.map_values(|v: Vec<u8>| v@) =~= resolved.map_values(
                |a: Seq<u8>| trim_slashes(a),
            ));
        }
        match content {
            None => {},
            Some(c) => {
                let cb = c.as_bytes();
                proof {
                    assert(cb@ == c.spec_bytes());
                    assert(cb@ == str_bytes(c@));
                }
                let mut lines = parse_exclusion_lines(cb);
                proof {
                    assert(lines@.map_values(|v: Vec<u8>| v@) == kept);
                    assert(lines@.len() == kept.len());
                }
                while lines.len() > 0
                    invariant
                        resolved.len() + lines@.len() <= kept.len(),
                        ig.entries@.map_values(|v: Vec<u8>| v@) == resolved.map_values(
                            |a: Seq<u8>| trim_slashes(a),
                        ),
                    decreases lines@.len(),
                {
                    let ghost ents = ig.entries@.map_values(|v: Vec<u8>| v@);
                    let line = lines.pop().unwrap();
                    match crate::codec::string_from_utf8(line) {
                        None => {},
                        Some(text) => match absolutize(text.as_str()) {
                            None => {},
                            Some(abs) => {
                                let astr = abs.as_str();
                                let ab = astr.as_bytes();
                                proof {
                                    assert(ab@ == astr.spec_bytes());
                                    assert(ab@ == str_bytes(abs@));
                                }
                                let trimmed = trim_trailing_slashes(ab);
                                ig.entries.push(trimmed);
                                proof {
                                    resolved = resolved.push(str_bytes(abs@));
                                    assert(ig.entries@.map_values(|v: Vec<u8>| v@) =~= ents.push(
                                        trim_slashes(str_bytes(abs@)),
                                    ));
                                    assert(resolved.map_values(|a: Seq<u8>| trim_slashes(a))
                                        =~= resolved.drop_last().map_values(
                                        |a: Seq<u8>| trim_slashes(a),
                                    ).push(trim_slashes(str_bytes(abs@))));
                                }
                            },
                        },
                    }
                }
            },
        }
        let ghost meta: Option<Seq<u8>> = None;
        match absolutize(".git") {
            None => {},
            Some(g) => {
                let gstr = g.as_str();
                let gb = gstr.as_bytes();
                proof {
                    assert(gb@ == gstr.spec_bytes());
                    assert(gb@ == str_bytes(g@));
                    meta = Some(str_bytes(g@));
                }
                ig.entries.push(slice_to_vec(gb));
                proof {
                    assert(ig.entries@.map_values(|v: Vec<u8>| v@) =~= resolved.map_values(
                        |a: Seq<u8>| trim_slashes(a),
                    ).push(str_bytes(g@)));
                }
            },
        }
        proof {
            assert(assembled_from(ig, kept, resolved, meta));
            let final_seq = ig.entries@.map_values(|v: Vec<u8>| v@);
            if content is None {
                vstd::seq_lib::seq_to_set_is_finite(final_seq);
                final_seq.lemma_cardinality_of_set();
                assert(final_seq.len() <= 1);
            }
        }
        ig
    }

    /// Whether an already-absolute path is excluded: true exactly when the
    /// set holds its bytes. Only whole-path equality decides; a path that
    /// merely extends an excluded path, sharing its prefix, is not excluded
    /// by that, since membership of one byte sequence says nothing of
    /// another.
    pub fn contains_resolved(&self, abs: &str) -> (r: bool)
        ensures
            r == spec_excluded(*self, str_bytes(abs@)),
    {
        let target = abs.as_bytes();
        proof {
            assert(target@ == abs.spec_bytes());
            assert(abs.spec_bytes() == vstd::utf8::encode_utf8(abs@));
            assert(target@ == str_bytes(abs@));
        }
        let ghost ms = self.entries@.map_values(|v: Vec<u8>| v@);
        let mut i: usize = 0;
        while i < self.entries.len()
            invariant
                target@ == str_bytes(abs@),
                ms == self.entries@.map_values(|v: Vec<u8>| v@),
                i <= ms.len(),
                forall|j: int| 0 <= j < i ==> #[trigger] ms[j] != str_bytes(abs@),
            decreases ms.len() - i,
        {
            let entry = &self.entries[i];
            let hit = bytes_eq(entry.as_slice(), target);
            proof {
                assert(entry@ == self.entries@[i as int]@);
                assert(ms[i as int] == self.entries@[i as int]@);
                assert(hit == (entry@ == target@));
            }
            if hit {
                assert(ms[i as int] == str_bytes(abs@));
                assert(ms.contains(str_bytes(abs@)));
                return true;
            }
            i = i + 1;
        }
        proof {
            if ms.contains(str_bytes(abs@)) {
                let w = choose|w: int| 0 <= w < ms.len() && ms[w] == str_bytes(abs@);
                assert(ms[w] != str_bytes(abs@));
            }
        }
        false
    }

    /// Whether a path is excluded: the path is resolved to its absolute
    /// form, and exact membership of that form decides. A path that fails
    /// to resolve is not excluded. What resolution yields depends on the
    /// working directory, so only exclusion-set emptiness is pinned here;
    /// `contains_resolved` carries the exact matching contract.
    pub fn contains(&self, path: &str) -> (r: bool)
        ensures
            r ==> exists|p: Seq<u8>| self@.contains(p),
    {
        match absolutize(path) {
            None => false,
            Some(abs) => self.contains_resolved(abs.as_str()),
        }
    }
}

} // verus!
