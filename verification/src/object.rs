use vstd::prelude::*;
use vstd::utf8::encode_utf8;

use crate::digits::{dec_digits, dec_i64, dec_pad2, dec_signed, dec_u64, dec_u64_pad2};
use crate::hex::{from_hex, hex_to_bytes, is_hex40};
use crate::scan::{lemma_find_byte_props, no_byte, push_all, scan_byte};

verus! {

/// Decoded bytes do not fit any recognized object framing.
#[derive(Debug, Clone, PartialEq, Eq, Structural)]
pub struct InvalidObjectFormat;

/// UTF-8 bytes of a character sequence; the byte form every encoding works on.
pub open spec fn str_bytes(s: Seq<char>) -> Seq<u8> {
    encode_utf8(s)
}

#[derive(Clone)]
pub struct User {
    name: String,
    email: String,
}

#[verifier::ext_equal]
pub struct UserModel {
    pub name: Seq<u8>,
    pub email: Seq<u8>,
}

impl View for User {
    type V = UserModel;

    closed spec fn view(&self) -> UserModel {
        UserModel { name: str_bytes(self.name@), email: str_bytes(self.email@) }
    }
}

impl User {
    pub fn new(name: &str, email: &str) -> (r: User)
        ensures
            r@ == (UserModel { name: str_bytes(name@), email: str_bytes(email@) }),
    {
        User { name: name.to_owned(), email: email.to_owned() }
    }
}

pub struct Timestamp {
    seconds: i64,
    offset: i32,
}

#[verifier::ext_equal]
pub struct TimeModel {
    pub seconds: int,
    pub offset: int,
}

impl View for Timestamp {
    type V = TimeModel;

    closed spec fn view(&self) -> TimeModel {
        TimeModel { seconds: self.seconds as int, offset: self.offset as int }
    }
}

impl Timestamp {
    pub fn new(seconds: i64, offset: i32) -> (r: Timestamp)
        ensures
            r@ == (TimeModel { seconds: seconds as int, offset: offset as int }),
    {
        Timestamp { seconds, offset }
    }

    /// Relies on chrono::Local::now for the wall clock and the local zone:
    /// the offset from UTC stays within a day in either direction.
    #[verifier::external_body]
    pub fn now() -> (r: Timestamp)
        ensures
            -86400 < r@.offset < 86400,
    {
        let now = chrono::Local::now();
        let offset = now.offset().local_minus_utc();
        Timestamp { seconds: now.timestamp(), offset }
    }
}

pub struct Entry {
    mode: String,
    filename: String,
    hash: String,
}

#[verifier::ext_equal]
pub struct EntryModel {
    pub mode: Seq<u8>,
    pub filename: Seq<u8>,
    pub hash: Seq<u8>,
}

impl View for Entry {
    type V = EntryModel;

    closed spec fn view(&self) -> EntryModel {
        EntryModel {
            mode: str_bytes(self.mode@),
            filename: str_bytes(self.filename@),
            hash: str_bytes(self.hash@),
        }
    }
}

/// "040000", the mode text of a directory entry.
pub open spec fn mode_dir() -> Seq<u8> {
    seq![0x30u8, 0x34, 0x30, 0x30, 0x30, 0x30]
}

/// "100644", the mode text of a regular file entry.
pub open spec fn mode_reg() -> Seq<u8> {
    seq![0x31u8, 0x30, 0x30, 0x36, 0x34, 0x34]
}

/// "100755", the mode text of an executable file entry.
pub open spec fn mode_exe() -> Seq<u8> {
    seq![0x31u8, 0x30, 0x30, 0x37, 0x35, 0x35]
}

pub open spec fn wf_mode(m: Seq<u8>) -> bool {
    m == mode_dir() || m == mode_reg() || m == mode_exe()
}

/// An entry that encodes reversibly: a fixed mode, a filename that is
/// NUL-free UTF-8, and a hash of forty lowercase hex digits.
pub open spec fn wf_entry(e: EntryModel) -> bool {
    wf_mode(e.mode) && no_byte(e.filename, 0x00) && vstd::utf8::valid_utf8(e.filename)
        && is_hex40(e.hash)
}

impl Entry {
    /// Builds a validated tree entry; rejects what could not be re-read from
    /// its own encoding.
    pub fn new(mode: &str, filename: &str, hash: &str) -> (r: Result<Entry, InvalidObjectFormat>)
        ensures
            r matches Ok(e) ==> e@ == (EntryModel {
                mode: str_bytes(mode@),
                filename: str_bytes(filename@),
                hash: str_bytes(hash@),
            }),
            r is Ok <==> wf_entry(
                EntryModel {
                    mode: str_bytes(mode@),
                    filename: str_bytes(filename@),
                    hash: str_bytes(hash@),
                },
            ),
    {
        if !mode_text_ok(mode.as_bytes()) {
            return Err(InvalidObjectFormat);
        }
        match scan_byte(filename.as_bytes(), 0x00) {
            Some(i) => {
                proof {
                    lemma_find_byte_props(str_bytes(filename@), 0x00);
                }
                return Err(InvalidObjectFormat);
            },
            None => {
                proof {
                    lemma_find_byte_props(str_bytes(filename@), 0x00);
                }
            },
        }
        if !crate::hex::check_hex40(hash.as_bytes()) {
            return Err(InvalidObjectFormat);
        }
        proof {
            vstd::utf8::encode_utf8_valid_utf8(filename@);
        }
        Ok(Entry { mode: mode.to_owned(), filename: filename.to_owned(), hash: hash.to_owned() })
    }

    /// Unchecked assembly, for decoding, which accepts what the stream holds.
    pub(crate) fn from_parts(mode: String, filename: String, hash: String) -> (r: Entry)
        ensures
            r@ == (EntryModel {
                mode: str_bytes(mode@),
                filename: str_bytes(filename@),
                hash: str_bytes(hash@),
            }),
    {
        Entry { mode, filename, hash }
    }

    pub fn mode(&self) -> (r: &str)
        ensures
            str_bytes(r@) == self@.mode,
    {
        self.mode.as_str()
    }

    pub fn filename(&self) -> (r: &str)
        ensures
            str_bytes(r@) == self@.filename,
    {
        self.filename.as_str()
    }

    pub fn hash(&self) -> (r: &str)
        ensures
            str_bytes(r@) == self@.hash,
    {
        self.hash.as_str()
    }
}

/// True exactly when `m` is one of the three entry mode texts.
pub fn mode_text_ok(m: &[u8]) -> (r: bool)
    ensures
        r == wf_mode(m@),
{
    if m.len() != 6 {
        assert(!wf_mode(m@));
        return false;
    }
    let d = m[0] == 0x30 && m[1] == 0x34 && m[2] == 0x30 && m[3] == 0x30 && m[4] == 0x30 && m[5]
        == 0x30;
    let f = m[0] == 0x31 && m[1] == 0x30 && m[2] == 0x30 && m[3] == 0x36 && m[4] == 0x34 && m[5]
        == 0x34;
    let x = m[0] == 0x31 && m[1] == 0x30 && m[2] == 0x30 && m[3] == 0x37 && m[4] == 0x35 && m[5]
        == 0x35;
    proof {
        if d {
            assert(m@ =~= mode_dir());
        }
        if f {
            assert(m@ =~= mode_reg());
        }
        if x {
            assert(m@ =~= mode_exe());
        }
    }
    d || f || x
}

pub enum Object {
    Blob(Vec<u8>),
    Tree(Vec<Entry>),
    Commit {
        tree: String,
        parents: Vec<String>,
        author: User,
        author_timestamp: Timestamp,
        committer: User,
        committer_timestamp: Timestamp,
        message: String,
    },
}

#[verifier::ext_equal]
pub enum ObjectModel {
    Blob { content: Seq<u8> },
    Tree { entries: Seq<EntryModel> },
    Commit {
        tree: Seq<u8>,
        parents: Seq<Seq<u8>>,
        author: UserModel,
        author_time: TimeModel,
        committer: UserModel,
        committer_time: TimeModel,
        message: Seq<u8>,
    },
}


impl View for Object {
    type V = ObjectModel;

    open spec fn view(&self) -> ObjectModel {
        match self {
            Object::Blob(data) => ObjectModel::Blob { content: data@ },
            Object::Tree(entries) => ObjectModel::Tree {
                entries: entries@.map_values(|e: Entry| e@),
            },
            Object::Commit {
                tree,
                parents,
                author,
                author_timestamp,
                committer,
                committer_timestamp,
                message,
            } => ObjectModel::Commit {
                tree: str_bytes(tree@),
                parents: parents@.map_values(|p: String| str_bytes(p@)),
                author: author@,
                author_time: author_timestamp@,
                committer: committer@,
                committer_time: committer_timestamp@,
                message: str_bytes(message@),
            },
        }
    }
}

/// Every entry of the sequence is well formed.
pub open spec fn wf_entries(es: Seq<EntryModel>) -> bool {
    forall|i: int| 0 <= i < es.len() ==> wf_entry(#[trigger] es[i])
}

/// An object whose tree entries, if any, are all well formed.
pub open spec fn wf_object(m: ObjectModel) -> bool {
    match m {
        ObjectModel::Tree { entries } => wf_entries(entries),
        _ => true,
    }
}

/// "blob" in bytes.
pub open spec fn blob_token() -> Seq<u8> {
    seq![0x62u8, 0x6c, 0x6f, 0x62]
}

/// "tree" in bytes.
pub open spec fn tree_token() -> Seq<u8> {
    seq![0x74u8, 0x72, 0x65, 0x65]
}

/// "commit" in bytes.
pub open spec fn commit_token() -> Seq<u8> {
    seq![0x63u8, 0x6f, 0x6d, 0x6d, 0x69, 0x74]
}

/// The framing every stored object carries: type token, space, decimal
/// payload length, NUL, then the payload itself.
pub open spec fn frame(token: Seq<u8>, payload: Seq<u8>) -> Seq<u8> {
    token + seq![0x20u8] + dec_digits(payload.len()) + seq![0x00u8] + payload
}

/// One tree line: mode, space, filename, NUL, then the twenty raw hash bytes.
pub open spec fn entry_bytes(e: EntryModel) -> Seq<u8> {
    e.mode + seq![0x20u8] + e.filename + seq![0x00u8] + hex_to_bytes(e.hash)
}

pub open spec fn tree_payload(es: Seq<EntryModel>) -> Seq<u8>
    decreases es.len(),
{
    if es.len() == 0 {
        Seq::empty()
    } else {
        entry_bytes(es[0]) + tree_payload(es.drop_first())
    }
}

pub proof fn lemma_tree_payload_snoc(es: Seq<EntryModel>, e: EntryModel)
    ensures
        tree_payload(es.push(e)) == tree_payload(es) + entry_bytes(e),
    decreases es.len(),
{
    if es.len() == 0 {
        assert(es.push(e).drop_first() =~= Seq::<EntryModel>::empty());
        assert(es.push(e)[0] == e);
        assert(tree_payload(Seq::<EntryModel>::empty()) =~= Seq::<u8>::empty());
        assert(tree_payload(es.push(e)) =~= tree_payload(es) + entry_bytes(e));
    } else {
        lemma_tree_payload_snoc(es.drop_first(), e);
        assert(es.push(e).drop_first() =~= es.drop_first().push(e));
        assert(es.push(e)[0] == es[0]);
        assert(tree_payload(es.push(e)) =~= tree_payload(es) + entry_bytes(e));
    }
}

/// Display form of a user: name, then the email in angle brackets.
pub open spec fn user_bytes(u: UserModel) -> Seq<u8> {
    u.name + seq![0x20u8, 0x3cu8] + u.email + seq![0x3eu8]
}

/// Display form of a timestamp: seconds, space, then the signed
/// hour-and-minute form of the UTC offset, each part two digits or more.
pub open spec fn timestamp_bytes(t: TimeModel) -> Seq<u8> {
    let a = if t.offset < 0 {
        -t.offset
    } else {
        t.offset
    };
    dec_signed(t.seconds) + seq![0x20u8] + seq![
        if t.offset < 0 {
            0x2du8
        } else {
            0x2bu8
        },
    ] + dec_pad2((a / 3600) as nat) + dec_pad2(((a % 3600) / 60) as nat)
}

/// "tree " in bytes.
pub open spec fn lit_tree_sp() -> Seq<u8> {
    seq![0x74u8, 0x72, 0x65, 0x65, 0x20]
}

/// "parent " in bytes.
pub open spec fn lit_parent_sp() -> Seq<u8> {
    seq![0x70u8, 0x61, 0x72, 0x65, 0x6e, 0x74, 0x20]
}

/// "author " in bytes.
pub open spec fn lit_author_sp() -> Seq<u8> {
    seq![0x61u8, 0x75, 0x74, 0x68, 0x6f, 0x72, 0x20]
}

/// "committer " in bytes.
pub open spec fn lit_committer_sp() -> Seq<u8> {
    seq![0x63u8, 0x6f, 0x6d, 0x6d, 0x69, 0x74, 0x74, 0x65, 0x72, 0x20]
}

/// One "parent <hash>" line for each parent, in the order given.
pub open spec fn parent_lines(ps: Seq<Seq<u8>>) -> Seq<u8>
    decreases ps.len(),
{
    if ps.len() == 0 {
        Seq::empty()
    } else {
        lit_parent_sp() + ps[0] + seq![0x0au8] + parent_lines(ps.drop_first())
    }
}

pub proof fn lemma_parent_lines_snoc(ps: Seq<Seq<u8>>, p: Seq<u8>)
    ensures
        parent_lines(ps.push(p)) == parent_lines(ps) + lit_parent_sp() + p + seq![0x0au8],
    decreases ps.len(),
{
    if ps.len() == 0 {
        assert(ps.push(p).drop_first() =~= Seq::<Seq<u8>>::empty());
        assert(ps.push(p)[0] == p);
        assert(parent_lines(Seq::<Seq<u8>>::empty()) =~= Seq::<u8>::empty());
        assert(parent_lines(ps.push(p)) =~= parent_lines(ps) + lit_parent_sp() + p + seq![0x0au8]);
    } else {
        lemma_parent_lines_snoc(ps.drop_first(), p);
        assert(ps.push(p).drop_first() =~= ps.drop_first().push(p));
        assert(ps.push(p)[0] == ps[0]);
        assert(parent_lines(ps.push(p)) =~= parent_lines(ps) + lit_parent_sp() + p + seq![0x0au8]);
    }
}

/// Text of a commit: tree line, parent lines, author and committer lines,
/// a blank line, the message, and a final newline.
pub open spec fn commit_payload(
    tree: Seq<u8>,
    parents: Seq<Seq<u8>>,
    author: UserModel,
    author_time: TimeModel,
    committer: UserModel,
    committer_time: TimeModel,
    message: Seq<u8>,
) -> Seq<u8> {
    lit_tree_sp() + tree + seq![0x0au8] + parent_lines(parents) + lit_author_sp() + user_bytes(
        author,
    ) + seq![0x20u8] + timestamp_bytes(author_time) + seq![0x0au8] + lit_committer_sp()
        + user_bytes(committer) + seq![0x20u8] + timestamp_bytes(committer_time) + seq![
        0x0au8,
        0x0au8,
    ] + message + seq![0x0au8]
}

/// The full framed byte form of an object; the hash is taken over all of it.
pub open spec fn encode_of(m: ObjectModel) -> Seq<u8> {
    match m {
        ObjectModel::Blob { content } => frame(blob_token(), content),
        ObjectModel::Tree { entries } => frame(tree_token(), tree_payload(entries)),
        ObjectModel::Commit {
            tree,
            parents,
            author,
            author_time,
            committer,
            committer_time,
            message,
        } => frame(
            commit_token(),
            commit_payload(tree, parents, author, author_time, committer, committer_time, message),
        ),
    }
}

/// Wraps a payload in the object framing for the given type token.
fn frame_with(token: &Vec<u8>, payload: &[u8]) -> (r: Vec<u8>)
    ensures
        r@ == frame(token@, payload@),
{
    let mut out: Vec<u8> = Vec::new();
    push_all(&mut out, token.as_slice());
    out.push(0x20);
    let len_text = dec_u64(payload.len() as u64);
    push_all(&mut out, len_text.as_slice());
    out.push(0x00);
    push_all(&mut out, payload);
    assert(out@ =~= frame(token@, payload@));
    out
}

fn push_user(out: &mut Vec<u8>, u: &User)
    ensures
        final(out)@ == old(out)@ + user_bytes(u@),
{
    push_all(out, u.name.as_str().as_bytes());
    out.push(0x20);
    out.push(0x3c);
    push_all(out, u.email.as_str().as_bytes());
    out.push(0x3e);
    assert(out@ =~= old(out)@ + user_bytes(u@));
}

fn push_timestamp(out: &mut Vec<u8>, t: &Timestamp)
    ensures
        final(out)@ == old(out)@ + timestamp_bytes(t@),
{
    let secs = dec_i64(t.seconds);
    push_all(out, secs.as_slice());
    out.push(0x20);
    out.push(if t.offset < 0 {
        0x2d
    } else {
        0x2b
    });
    let off64: i64 = t.offset as i64;
    let mag: u64 = if off64 < 0 {
        (-off64) as u64
    } else {
        off64 as u64
    };
    let hours = dec_u64_pad2(mag / 3600);
    push_all(out, hours.as_slice());
    let minutes = dec_u64_pad2((mag % 3600) / 60);
    push_all(out, minutes.as_slice());
    assert(out@ =~= old(out)@ + timestamp_bytes(t@));
}

#[verifier::rlimit(60)]
fn build_commit_payload(
    tree: &String,
    parents: &Vec<String>,
    author: &User,
    author_timestamp: &Timestamp,
    committer: &User,
    committer_timestamp: &Timestamp,
    message: &String,
) -> (r: Vec<u8>)
    ensures
        r@ == commit_payload(
            str_bytes(tree@),
            parents@.map_values(|p: String| str_bytes(p@)),
            author@,
            author_timestamp@,
            committer@,
            committer_timestamp@,
            str_bytes(message@),
        ),
{
    let ghost ps = parents@.map_values(|p: String| str_bytes(p@));
    let mut payload: Vec<u8> = Vec::new();
    payload.push(0x74);
    payload.push(0x72);
    payload.push(0x65);
    payload.push(0x65);
    payload.push(0x20);
    push_all(&mut payload, tree.as_str().as_bytes());
    payload.push(0x0a);
    let ghost head = lit_tree_sp() + str_bytes(tree@) + seq![0x0au8];
    assert(payload@ =~= head);
    let mut i: usize = 0;
    while i < parents.len()
        invariant
            i <= parents@.len(),
            ps == parents@.map_values(|p: String| str_bytes(p@)),
            payload@ == head + parent_lines(ps.take(i as int)),
        decreases parents@.len() - i,
    {
        payload.push(0x70);
        payload.push(0x61);
        payload.push(0x72);
        payload.push(0x65);
        payload.push(0x6e);
        payload.push(0x74);
        payload.push(0x20);
        let p = &parents[i];
        push_all(&mut payload, p.as_str().as_bytes());
        payload.push(0x0a);
        proof {
            lemma_parent_lines_snoc(ps.take(i as int), ps[i as int]);
            assert(ps.take(i as int + 1) =~= ps.take(i as int).push(ps[i as int]));
            assert(payload@ =~= head + parent_lines(ps.take(i as int + 1)));
        }
        i = i + 1;
    }
    assert(ps.take(ps.len() as int) =~= ps);
    let ghost head2 = head + parent_lines(ps);
    assert(payload@ == head2);
    payload.push(0x61);
    payload.push(0x75);
    payload.push(0x74);
    payload.push(0x68);
    payload.push(0x6f);
    payload.push(0x72);
    payload.push(0x20);
    assert(payload@ =~= head2 + lit_author_sp());
    push_user(&mut payload, author);
    payload.push(0x20);
    push_timestamp(&mut payload, author_timestamp);
    payload.push(0x0a);
    let ghost head3 = head2 + lit_author_sp() + user_bytes(author@) + seq![0x20u8]
        + timestamp_bytes(author_timestamp@) + seq![0x0au8];
    assert(payload@ =~= head3);
    payload.push(0x63);
    payload.push(0x6f);
    payload.push(0x6d);
    payload.push(0x6d);
    payload.push(0x69);
    payload.push(0x74);
    payload.push(0x74);
    payload.push(0x65);
    payload.push(0x72);
    payload.push(0x20);
    assert(payload@ =~= head3 + lit_committer_sp());
    push_user(&mut payload, committer);
    payload.push(0x20);
    push_timestamp(&mut payload, committer_timestamp);
    payload.push(0x0a);
    payload.push(0x0a);
    let ghost head4 = head3 + lit_committer_sp() + user_bytes(committer@) + seq![0x20u8]
        + timestamp_bytes(committer_timestamp@) + seq![0x0au8, 0x0au8];
    assert(payload@ =~= head4);
    push_all(&mut payload, message.as_str().as_bytes());
    payload.push(0x0a);
    proof {
        let full = commit_payload(
            str_bytes(tree@),
            ps,
            author@,
            author_timestamp@,
            committer@,
            committer_timestamp@,
            str_bytes(message@),
        );
        assert(payload@ =~= full);
    }
    payload
}

impl Object {
    /// Framed byte form of this object, ready for hashing and storage.
    #[verifier::rlimit(60)]
    pub fn encode(&self) -> (r: Vec<u8>)
        requires
            wf_object(self@),
        ensures
            r@ == encode_of(self@),
    {
        match self {
            Object::Blob(data) => {
                let mut token: Vec<u8> = Vec::new();
                token.push(0x62);
                token.push(0x6c);
                token.push(0x6f);
                token.push(0x62);
                assert(token@ =~= blob_token());
                frame_with(&token, data.as_slice())
            },
            Object::Tree(entries) => {
                let ghost ms = entries@.map_values(|e: Entry| e@);
                proof {
                    assert(self@ == (ObjectModel::Tree { entries: ms }));
                    assert(wf_entries(ms));
                }
                let mut payload: Vec<u8> = Vec::new();
                let mut i: usize = 0;
                while i < entries.len()
                    invariant
                        i <= entries@.len(),
                        ms == entries@.map_values(|e: Entry| e@),
                        wf_entries(ms),
                        payload@ == tree_payload(ms.take(i as int)),
                    decreases entries@.len() - i,
                {
                    let e = &entries[i];
                    assert(e@ == ms[i as int]);
                    push_all(&mut payload, e.mode().as_bytes());
                    payload.push(0x20);
                    push_all(&mut payload, e.filename().as_bytes());
                    payload.push(0x00);
                    let raw = from_hex(e.hash().as_bytes());
                    push_all(&mut payload, raw.as_slice());
                    proof {
                        lemma_tree_payload_snoc(ms.take(i as int), ms[i as int]);
                        assert(ms.take(i as int + 1) =~= ms.take(i as int).push(ms[i as int]));
                        assert(payload@ =~= tree_payload(ms.take(i as int + 1)));
                    }
                    i = i + 1;
                }
                assert(ms.take(ms.len() as int) =~= ms);
                let mut token: Vec<u8> = Vec::new();
                token.push(0x74);
                token.push(0x72);
                token.push(0x65);
                token.push(0x65);
                assert(token@ =~= tree_token());
                frame_with(&token, payload.as_slice())
            },
            Object::Commit {
                tree,
                parents,
                author,
                author_timestamp,
                committer,
                committer_timestamp,
                message,
            } => {
                let payload = build_commit_payload(
                    tree,
                    parents,
                    author,
                    author_timestamp,
                    committer,
                    committer_timestamp,
                    message,
                );
                let mut token: Vec<u8> = Vec::new();
                token.push(0x63);
                token.push(0x6f);
                token.push(0x6d);
                token.push(0x6d);
                token.push(0x69);
                token.push(0x74);
                assert(token@ =~= commit_token());
                frame_with(&token, payload.as_slice())
            },
        }
    }
}

} // verus!
