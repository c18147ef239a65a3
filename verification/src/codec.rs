use vstd::prelude::*;
use vstd::slice::{slice_subrange, slice_to_vec};
use vstd::utf8::{
    decode_utf8, decode_utf8_encode_utf8, partial_valid_utf8_extend_ascii_block, valid_utf8,
};

use crate::hex::{
    bytes_to_hex, hex_to_bytes, lemma_bytes_of_hex_round_trip, lemma_bytes_to_hex_props,
    lemma_hex_to_bytes_len, to_hex,
};
use crate::object::{
    blob_token, commit_token, encode_of, frame, tree_payload, tree_token, wf_entries, wf_entry,
    wf_mode, Entry, EntryModel, InvalidObjectFormat, Object, ObjectModel,
};
use crate::scan::{find_byte, lemma_find_byte_frame, lemma_find_byte_props, no_byte, scan_byte};

verus! {

/// A sequence of bytes below 0x80 is a valid UTF-8 encoding.
pub proof fn lemma_ascii_valid_utf8(s: Seq<u8>)
    requires
        forall|i: int| 0 <= i < s.len() ==> #[trigger] s[i] < 0x80,
    ensures
        valid_utf8(s),
{
    assert(s.subrange(0, 0) =~= Seq::<u8>::empty());
    assert(vstd::utf8::partial_valid_utf8(s, 0));
    partial_valid_utf8_extend_ascii_block(s, 0, s.len() as int);
    assert(s.subrange(0, s.len() as int) =~= s);
}

/// Relies on String::from_utf8: it accepts exactly the valid UTF-8 byte
/// sequences and yields the characters they encode.
#[verifier::external_body]
pub(crate) fn string_from_utf8(v: Vec<u8>) -> (r: Option<String>)
    ensures
        match r {
            Some(s) => valid_utf8(v@) && s@ == decode_utf8(v@),
            None => !valid_utf8(v@),
        },
{
    match String::from_utf8(v) {
        Ok(s) => Some(s),
        Err(_) => None,
    }
}

/// Tree lines read greedily off a payload: mode to the first space, filename
/// to the first NUL, twenty raw hash bytes, until the payload is exhausted.
pub open spec fn parse_tree_entries(s: Seq<u8>) -> Option<Seq<EntryModel>>
    decreases s.len()
    via parse_tree_entries_decreases
{
    if s.len() == 0 {
        Some(Seq::empty())
    } else {
        let sp = find_byte(s, 0x20);
        if sp < 0 {
            None
        } else {
            let mode = s.take(sp);
            let r1 = s.skip(sp + 1);
            if !valid_utf8(mode) {
                None
            } else {
                let nl = find_byte(r1, 0x00);
                if nl < 0 {
                    None
                } else {
                    let fname = r1.take(nl);
                    let r2 = r1.skip(nl + 1);
                    if !valid_utf8(fname) {
                        None
                    } else if r2.len() < 20 {
                        None
                    } else {
                        match parse_tree_entries(r2.skip(20)) {
                            None => None,
                            Some(rest) => Some(
                                seq![
                                    EntryModel {
                                        mode: mode,
                                        filename: fname,
                                        hash: bytes_to_hex(r2.take(20)),
                                    },
                                ] + rest,
                            ),
                        }
                    }
                }
            }
        }
    }
}

#[via_fn]
proof fn parse_tree_entries_decreases(s: Seq<u8>) {
    lemma_find_byte_props(s, 0x20);
    let sp = find_byte(s, 0x20);
    if 0 <= sp {
        lemma_find_byte_props(s.skip(sp + 1), 0x00);
    }
}

/// What a framed byte stream decodes to: a blob's or a tree's content after
/// the header, or nothing when the stream does not fit the format.
pub open spec fn decode_of(s: Seq<u8>) -> Option<ObjectModel> {
    let sp = find_byte(s, 0x20);
    if sp < 0 {
        None
    } else {
        let token = s.take(sp);
        let rest = s.skip(sp + 1);
        let nl = find_byte(rest, 0x00);
        if token == blob_token() {
            if nl < 0 {
                None
            } else {
                Some(ObjectModel::Blob { content: rest.skip(nl + 1) })
            }
        } else if token == tree_token() {
            if nl < 0 {
                None
            } else {
                match parse_tree_entries(rest.skip(nl + 1)) {
                    None => None,
                    Some(es) => Some(ObjectModel::Tree { entries: es }),
                }
            }
        } else {
            None
        }
    }
}

/// True exactly when `t` is the blob type token.
fn is_blob_token(t: &[u8]) -> (r: bool)
    ensures
        r == (t@ == blob_token()),
{
    if t.len() != 4 {
        assert(t@ != blob_token());
        return false;
    }
    let r = t[0] == 0x62 && t[1] == 0x6c && t[2] == 0x6f && t[3] == 0x62;
    proof {
        if r {
            assert(t@ =~= blob_token());
        }
    }
    r
}

/// True exactly when `t` is the tree type token.
fn is_tree_token(t: &[u8]) -> (r: bool)
    ensures
        r == (t@ == tree_token()),
{
    if t.len() != 4 {
        assert(t@ != tree_token());
        return false;
    }
    let r = t[0] == 0x74 && t[1] == 0x72 && t[2] == 0x65 && t[3] == 0x65;
    proof {
        if r {
            assert(t@ =~= tree_token());
        }
    }
    r
}

pub open spec fn join_parsed(done: Seq<EntryModel>, rest: Option<Seq<EntryModel>>) -> Option<
    Seq<EntryModel>,
> {
    match rest {
        None => None,
        Some(r) => Some(done + r),
    }
}

impl Object {
    /// Reads a framed byte stream back into an object. Only blobs and trees
    /// are readable; any other type token is rejected. The declared length
    /// field is skipped, not checked.
    #[verifier::rlimit(100)]
    pub fn decode(bytes: &[u8]) -> (r: Result<Object, InvalidObjectFormat>)
        ensures
            match r {
                Ok(o) => decode_of(bytes@) == Some(o@),
                Err(_) => decode_of(bytes@) is None,
            },
    {
        proof {
            lemma_find_byte_props(bytes@, 0x20);
        }
        let sp = match scan_byte(bytes, 0x20) {
            Some(i) => i,
            None => {
                return Err(InvalidObjectFormat);
            },
        };
        let n = bytes.len();
        assert(sp < n);
        let token = slice_subrange(bytes, 0, sp);
        let rest = slice_subrange(bytes, sp + 1, n);
        proof {
            assert(token@ == bytes@.take(sp as int));
            assert(rest@ == bytes@.skip(sp as int + 1));
            lemma_find_byte_props(rest@, 0x00);
        }
        if is_blob_token(token) {
            let nl = match scan_byte(rest, 0x00) {
                Some(i) => i,
                None => {
                    return Err(InvalidObjectFormat);
                },
            };
            let m = rest.len();
            assert(nl < m);
            let payload = slice_subrange(rest, nl + 1, m);
            Ok(Object::Blob(slice_to_vec(payload)))
        } else if is_tree_token(token) {
            let nl = match scan_byte(rest, 0x00) {
                Some(i) => i,
                None => {
                    return Err(InvalidObjectFormat);
                },
            };
            let m = rest.len();
            assert(nl < m);
            let payload = slice_subrange(rest, nl + 1, m);
            match parse_entries_exec(payload) {
                Some(entries) => Ok(Object::Tree(entries)),
                None => Err(InvalidObjectFormat),
            }
        } else {
            Err(InvalidObjectFormat)
        }
    }
}

/// Reads tree lines off a payload until it is exhausted.
#[verifier::rlimit(100)]
fn parse_entries_exec(payload: &[u8]) -> (r: Option<Vec<Entry>>)
    ensures
        match r {
            Some(es) => parse_tree_entries(payload@) == Some(es@.map_values(|e: Entry| e@)),
            None => parse_tree_entries(payload@) is None,
        },
{
    let mut entries: Vec<Entry> = Vec::new();
    let mut cur: &[u8] = payload;
    while cur.len() > 0
        invariant
            parse_tree_entries(payload@) == join_parsed(
                entries@.map_values(|e: Entry| e@),
                parse_tree_entries(cur@),
            ),
        decreases cur@.len(),
    {
        let ghost done = entries@.map_values(|e: Entry| e@);
        proof {
            lemma_find_byte_props(cur@, 0x20);
        }
        let sp = match scan_byte(cur, 0x20) {
            Some(i) => i,
            None => {
                return None;
            },
        };
        let n = cur.len();
        assert(sp < n);
        let mode_slice = slice_subrange(cur, 0, sp);
        let r1 = slice_subrange(cur, sp + 1, n);
        let mode_string = match string_from_utf8(slice_to_vec(mode_slice)) {
            Some(s) => s,
            None => {
                return None;
            },
        };
        proof {
            decode_utf8_encode_utf8(mode_slice@);
            lemma_find_byte_props(r1@, 0x00);
        }
        let nl = match scan_byte(r1, 0x00) {
            Some(i) => i,
            None => {
                return None;
            },
        };
        let n1 = r1.len();
        assert(nl < n1);
        let fname_slice = slice_subrange(r1, 0, nl);
        let r2 = slice_subrange(r1, nl + 1, n1);
        let fname_string = match string_from_utf8(slice_to_vec(fname_slice)) {
            Some(s) => s,
            None => {
                return None;
            },
        };
        proof {
            decode_utf8_encode_utf8(fname_slice@);
        }
        if r2.len() < 20 {
            return None;
        }
        let hash_slice = slice_subrange(r2, 0, 20);
        let hex_text = to_hex(hash_slice);
        proof {
            lemma_bytes_to_hex_props(hash_slice@);
            assert(forall|i: int| 0 <= i < hex_text@.len() ==> #[trigger] hex_text@[i] < 0x80);
            lemma_ascii_valid_utf8(hex_text@);
        }
        let ghost hex_seq = hex_text@;
        let hash_string = match string_from_utf8(hex_text) {
            Some(s) => s,
            None => {
                assert(false);
                return None;
            },
        };
        proof {
            decode_utf8_encode_utf8(hex_seq);
        }
        let e = Entry::from_parts(mode_string, fname_string, hash_string);
        entries.push(e);
        let prev = cur;
        cur = slice_subrange(r2, 20, r2.len());
        proof {
            let em = EntryModel {
                mode: prev@.take(sp as int),
                filename: r1@.take(nl as int),
                hash: bytes_to_hex(r2@.take(20)),
            };
            assert(e@ =~= em);
            assert(parse_tree_entries(prev@) == join_parsed(
                seq![em],
                parse_tree_entries(cur@),
            ));
            assert(entries@.map_values(|x: Entry| x@) =~= done.push(em));
            match parse_tree_entries(cur@) {
                None => {},
                Some(rest) => {
                    assert(done + (seq![em] + rest) =~= done.push(em) + rest);
                },
            }
        }
    }
    proof {
        assert(parse_tree_entries(cur@) == Some(Seq::<EntryModel>::empty()));
        match parse_tree_entries(payload@) {
            None => {},
            Some(es) => {
                assert(es =~= entries@.map_values(|e: Entry| e@) + Seq::<EntryModel>::empty());
                assert(es =~= entries@.map_values(|e: Entry| e@));
            },
        }
    }
    Some(entries)
}

/// A well-formed mode text is ASCII and holds neither a space nor a NUL.
pub proof fn lemma_mode_facts(m: Seq<u8>)
    requires
        wf_mode(m),
    ensures
        valid_utf8(m),
        no_byte(m, 0x20),
        no_byte(m, 0x00),
{
    assert(forall|i: int| 0 <= i < m.len() ==> #[trigger] m[i] < 0x80);
    lemma_ascii_valid_utf8(m);
}

/// Reading a tree payload back yields exactly the entries it was built from.
pub proof fn lemma_parse_of_tree_payload(es: Seq<EntryModel>)
    requires
        wf_entries(es),
    ensures
        parse_tree_entries(tree_payload(es)) == Some(es),
    decreases es.len(),
{
    if es.len() == 0 {
        assert(tree_payload(es).len() == 0);
        assert(parse_tree_entries(tree_payload(es)) =~= Some(es));
    } else {
        let e = es[0];
        assert(wf_entry(e));
        let tail = tree_payload(es.drop_first());
        let hx = hex_to_bytes(e.hash);
        let s = tree_payload(es);
        lemma_mode_facts(e.mode);
        lemma_hex_to_bytes_len(e.hash);
        let post1 = e.filename + seq![0x00u8] + hx + tail;
        assert(s =~= e.mode + seq![0x20u8] + post1);
        lemma_find_byte_frame(e.mode, post1, 0x20);
        assert(find_byte(s, 0x20) == e.mode.len());
        assert(s.take(e.mode.len() as int) == e.mode);
        assert(s.skip(e.mode.len() as int + 1) == post1);
        let post2 = hx + tail;
        assert(post1 =~= e.filename + seq![0x00u8] + post2);
        lemma_find_byte_frame(e.filename, post2, 0x00);
        assert(find_byte(post1, 0x00) == e.filename.len());
        assert(post1.take(e.filename.len() as int) == e.filename);
        assert(post1.skip(e.filename.len() as int + 1) == post2);
        assert(post2.len() >= 20);
        assert(post2.take(20) =~= hx);
        assert(post2.skip(20) =~= tail);
        lemma_bytes_of_hex_round_trip(e.hash);
        assert(bytes_to_hex(post2.take(20)) == e.hash);
        assert(wf_entries(es.drop_first())) by {
            assert(forall|i: int|
                0 <= i < es.drop_first().len() ==> #[trigger] es.drop_first()[i] == es[i + 1]);
        }
        lemma_parse_of_tree_payload(es.drop_first());
        let em = EntryModel { mode: s.take(e.mode.len() as int), filename: post1.take(e.filename.len() as int), hash: bytes_to_hex(post2.take(20)) };
        assert(em =~= e);
        assert(seq![em] + es.drop_first() =~= es);
        assert(parse_tree_entries(s) == Some(es));
    }
}

/// A blob re-read from its own encoding is itself, whatever its content.
pub proof fn lemma_blob_round_trip(content: Seq<u8>)
    ensures
        decode_of(encode_of(ObjectModel::Blob { content })) == Some(
            ObjectModel::Blob { content },
        ),
{
    let s = encode_of(ObjectModel::Blob { content });
    let dd = crate::digits::dec_digits(content.len());
    crate::digits::lemma_dec_digits_are_digits(content.len());
    let post1 = dd + seq![0x00u8] + content;
    assert(no_byte(blob_token(), 0x20)) by {
        assert(forall|i: int|
            0 <= i < blob_token().len() ==> #[trigger] blob_token()[i] != 0x20);
    }
    assert(s =~= blob_token() + seq![0x20u8] + post1);
    lemma_find_byte_frame(blob_token(), post1, 0x20);
    assert(no_byte(dd, 0x00));
    assert(post1 =~= dd + seq![0x00u8] + content);
    lemma_find_byte_frame(dd, content, 0x00);
    assert(s.take(blob_token().len() as int) == blob_token());
    assert(s.skip(blob_token().len() as int + 1) == post1);
    assert(post1.skip(dd.len() as int + 1) == content);
    assert(blob_token() != tree_token());
}

/// A tree of well-formed entries re-read from its own encoding is itself.
pub proof fn lemma_tree_round_trip(entries: Seq<EntryModel>)
    requires
        wf_entries(entries),
    ensures
        decode_of(encode_of(ObjectModel::Tree { entries })) == Some(
            ObjectModel::Tree { entries },
        ),
{
    let s = encode_of(ObjectModel::Tree { entries });
    let p = tree_payload(entries);
    let dd = crate::digits::dec_digits(p.len());
    crate::digits::lemma_dec_digits_are_digits(p.len());
    let post1 = dd + seq![0x00u8] + p;
    assert(no_byte(tree_token(), 0x20)) by {
        assert(forall|i: int|
            0 <= i < tree_token().len() ==> #[trigger] tree_token()[i] != 0x20);
    }
    assert(s =~= tree_token() + seq![0x20u8] + post1);
    lemma_find_byte_frame(tree_token(), post1, 0x20);
    assert(no_byte(dd, 0x00));
    lemma_find_byte_frame(dd, p, 0x00);
    assert(s.take(tree_token().len() as int) == tree_token());
    assert(s.skip(tree_token().len() as int + 1) == post1);
    assert(post1.skip(dd.len() as int + 1) == p);
    lemma_parse_of_tree_payload(entries);
    assert(tree_token() != blob_token()) by {
        assert(tree_token()[0] == 0x74 && blob_token()[0] == 0x62);
    }
}

/// The same payload bytes framed under different type tokens give different
/// framed byte streams; the digest is taken over the whole frame, so the
/// hashed inputs differ.
pub proof fn lemma_frame_distinguishes_types(payload: Seq<u8>)
    ensures
        frame(blob_token(), payload) != frame(tree_token(), payload),
        frame(blob_token(), payload) != frame(commit_token(), payload),
        frame(tree_token(), payload) != frame(commit_token(), payload),
{
    assert(frame(blob_token(), payload)[0] == 0x62);
    assert(frame(tree_token(), payload)[0] == 0x74);
    assert(frame(commit_token(), payload)[0] == 0x63);
}

} // verus!
