//! The lockfile: one SHA-256 hex digest per rendered output path. It
//! decides whether a freshly rendered file is actually written, and is
//! pruned and saved once per run. The map is kept key-sorted so the
//! written file is diff-stable.
use vstd::prelude::*;

use sha2::Digest;
use std::fmt::Write;

use crate::strutil::{lemma_lex_lt_ne, lemma_lex_total, lemma_lex_trans, lex_lt, lex_lt_exec};
use crate::values::{json_stringify, json_text_of, JVal, Jv};

verus! {

/// What sha2's SHA-256 digest of a string's bytes reads as lowercase hex:
/// a function of the characters alone.
pub uninterp spec fn sha256_hex_of(s: Seq<char>) -> Seq<char>;

/// Relies on sha2::Sha256 through digest::Digest::digest: the digest
/// depends on the input bytes alone; two hex digits per digest byte.
#[verifier::external_body]
pub fn hash_contents(contents: &str) -> (r: String)
    ensures
        r@ == sha256_hex_of(contents@),
        r@.len() == 64,
{
    let digest = sha2::Sha256::digest(contents.as_bytes());
    let mut out = String::new();
    for b in digest {
        let _ = write!(out, "{:02x}", b);
    }
    out
}

/// The map a list of path/hash pairs stands for, later pairs winning.
pub open spec fn files_map(files: Seq<(String, String)>) -> Map<Seq<char>, Seq<char>>
    decreases files.len(),
{
    if files.len() == 0 {
        Map::empty()
    } else {
        files_map(files.drop_last()).insert(files.last().0@, files.last().1@)
    }
}

/// Keys strictly ascending: sorted, and therefore unique.
pub open spec fn sorted_keys(files: Seq<(String, String)>) -> bool {
    forall|i: int, j: int|
        0 <= i < j < files.len() ==> lex_lt(#[trigger] files[i].0@, #[trigger] files[j].0@)
}

/// The domain of the map is exactly the listed keys.
pub proof fn lemma_files_map_dom(files: Seq<(String, String)>, k: Seq<char>)
    ensures
        files_map(files).contains_key(k) <==> exists|i: int|
            0 <= i < files.len() && #[trigger] files[i].0@ == k,
    decreases files.len(),
{
    if files.len() > 0 {
        lemma_files_map_dom(files.drop_last(), k);
        if files.last().0@ == k {
            assert(files[files.len() - 1].0@ == k);
        } else {
            if exists|i: int| 0 <= i < files.len() - 1 && #[trigger] files.drop_last()[i].0@
                == k {
                let i = choose|i: int|
                    0 <= i < files.len() - 1 && #[trigger] files.drop_last()[i].0@ == k;
                assert(files[i].0@ == k);
            }
            if exists|i: int| 0 <= i < files.len() && #[trigger] files[i].0@ == k {
                let i = choose|i: int| 0 <= i < files.len() && #[trigger] files[i].0@ == k;
                assert(i < files.len() - 1);
                assert(files.drop_last()[i].0@ == k);
            }
        }
    }
}

/// With sorted (hence unique) keys, the pair at any matching index gives
/// the map's value.
pub proof fn lemma_files_map_at(files: Seq<(String, String)>, i: int)
    requires
        sorted_keys(files),
        0 <= i < files.len(),
    ensures
        files_map(files).contains_key(files[i].0@),
        files_map(files)[files[i].0@] == files[i].1@,
    decreases files.len(),
{
    if i == files.len() - 1 {
    } else {
        assert(lex_lt(files[i].0@, files.last().0@));
        lemma_lex_lt_ne(files[i].0@, files.last().0@);
        assert(files.drop_last()[i] == files[i]);
        lemma_sorted_prefix(files);
        lemma_files_map_at(files.drop_last(), i);
    }
}

/// Dropping the last pair keeps the keys sorted.
proof fn lemma_sorted_prefix(files: Seq<(String, String)>)
    requires
        sorted_keys(files),
        files.len() > 0,
    ensures
        sorted_keys(files.drop_last()),
{
    assert forall|a: int, b: int|
        0 <= a < b < files.drop_last().len() implies lex_lt(
        #[trigger] files.drop_last()[a].0@,
        #[trigger] files.drop_last()[b].0@,
    ) by {
        assert(files.drop_last()[a] == files[a]);
        assert(files.drop_last()[b] == files[b]);
    }
}

/// Updating the pair at a key's index updates the map at that key.
proof fn lemma_files_map_update(files: Seq<(String, String)>, i: int, v: String)
    requires
        sorted_keys(files),
        0 <= i < files.len(),
    ensures
        files_map(files.update(i, (files[i].0, v))) == files_map(files).insert(files[i].0@, v@),
    decreases files.len(),
{
    let upd = files.update(i, (files[i].0, v));
    if i == files.len() - 1 {
        assert(upd.drop_last() =~= files.drop_last());
        assert(upd.last() == (files[i].0, v));
        assert(files_map(upd) =~= files_map(files).insert(files[i].0@, v@));
    } else {
        assert(upd.drop_last() =~= files.drop_last().update(i, (files[i].0, v)));
        assert(files.drop_last()[i] == files[i]);
        lemma_sorted_prefix(files);
        lemma_files_map_update(files.drop_last(), i, v);
        assert(upd.last() == files.last());
        assert(lex_lt(files[i].0@, files.last().0@));
        lemma_lex_lt_ne(files[i].0@, files.last().0@);
        assert(files_map(upd) =~= files_map(files).insert(files[i].0@, v@));
    }
}

/// Inserting a fresh key anywhere inserts it into the map.
proof fn lemma_files_map_insert_mid(
    pre: Seq<(String, String)>,
    post: Seq<(String, String)>,
    kv: (String, String),
)
    requires
        forall|j: int| 0 <= j < post.len() ==> #[trigger] post[j].0@ != kv.0@,
    ensures
        files_map(pre + seq![kv] + post) == files_map(pre + post).insert(kv.0@, kv.1@),
    decreases post.len(),
{
    if post.len() == 0 {
        assert(pre + seq![kv] + post =~= pre.push(kv));
        assert(pre + post =~= pre);
        assert((pre.push(kv)).drop_last() =~= pre);
        assert(files_map(pre + seq![kv] + post) =~= files_map(pre + post).insert(kv.0@, kv.1@));
    } else {
        let e = post.last();
        assert(post[post.len() - 1].0@ != kv.0@);
        assert forall|j: int| 0 <= j < post.drop_last().len() implies #[trigger] post.drop_last()[j].0@
            != kv.0@ by {
            assert(post.drop_last()[j] == post[j]);
        }
        lemma_files_map_insert_mid(pre, post.drop_last(), kv);
        assert((pre + seq![kv] + post).drop_last() =~= pre + seq![kv] + post.drop_last());
        assert((pre + seq![kv] + post).last() == e);
        assert((pre + post).drop_last() =~= pre + post.drop_last());
        assert((pre + post).last() == e);
        assert(files_map(pre + seq![kv] + post) =~= files_map(pre + post).insert(kv.0@, kv.1@));
    }
}

/// The lockfile's persisted body: a tool-version string and a map from a
/// template's relative path to the digest of its last-written output.
pub struct Contents {
    pub version: String,
    pub files: Vec<(String, String)>,
}

impl Contents {
    /// An empty, version-stamped structure.
    pub fn default(version: &str) -> (r: Contents)
        ensures
            r.version@ == version@,
            r.files@.len() == 0,
            sorted_keys(r.files@),
    {
        Contents { version: version.to_owned(), files: Vec::new() }
    }

    /// The stored digest for a path, if one is present.
    pub fn get_hash(&self, k: &str) -> (r: Option<&String>)
        requires
            sorted_keys(self.files@),
        ensures
            match r {
                Some(v) => files_map(self.files@).contains_key(k@) && files_map(self.files@)[k@]
                    == v@,
                None => !files_map(self.files@).contains_key(k@),
            },
    {
        let mut i: usize = 0;
        while i < self.files.len()
            invariant
                i <= self.files@.len(),
                sorted_keys(self.files@),
                forall|j: int| 0 <= j < i ==> #[trigger] self.files@[j].0@ != k@,
            decreases self.files@.len() - i,
        {
            if crate::values::str_eq(self.files[i].0.as_str(), k) {
                proof {
                    lemma_files_map_at(self.files@, i as int);
                }
                return Some(&self.files[i].1);
            }
            i = i + 1;
        }
        proof {
            lemma_files_map_dom(self.files@, k@);
        }
        None
    }

    /// Bind a path to a digest, keeping the keys sorted.
    #[verifier::rlimit(100)]
    pub fn upsert(&mut self, k: &str, v: String)
        requires
            sorted_keys(old(self).files@),
        ensures
            sorted_keys(final(self).files@),
            files_map(final(self).files@) == files_map(old(self).files@).insert(k@, v@),
            final(self).version == old(self).version,
    {
        let kv = crate::strutil::chars_vec(k);
        let mut i: usize = 0;
        loop
            invariant
                i <= self.files@.len(),
                sorted_keys(self.files@),
                kv@ == k@,
                *self == *old(self),
                forall|j: int| 0 <= j < i ==> lex_lt(#[trigger] self.files@[j].0@, k@),
            ensures
                i <= self.files@.len(),
                *self == *old(self),
                forall|j: int| 0 <= j < i ==> lex_lt(#[trigger] self.files@[j].0@, k@),
                i == self.files@.len() || !lex_lt(self.files@[i as int].0@, k@),
            decreases self.files@.len() - i,
        {
            if i >= self.files.len() {
                break ;
            }
            let kc = crate::strutil::chars_vec(self.files[i].0.as_str());
            if !lex_lt_exec(&kc, &kv) {
                break ;
            }
            i = i + 1;
        }
        let ghost pre_files = self.files@;
        let mut found = false;
        if i < self.files.len() {
            found = crate::values::str_eq(self.files[i].0.as_str(), k);
        }
        if found {
            // The key is present: replace its digest in place.
            let ks = self.files[i].0.clone();
            let ghost gv = v;
            proof {
                lemma_files_map_update(pre_files, i as int, gv);
            }
            self.files[i] = (ks, v);
            proof {
                assert(self.files@ == pre_files.update(i as int, (pre_files[i as int].0, gv)));
                assert(pre_files[i as int].0@ == k@);
                assert forall|a: int, b: int|
                    0 <= a < b < self.files@.len() implies lex_lt(
                    #[trigger] self.files@[a].0@,
                    #[trigger] self.files@[b].0@,
                ) by {
                    assert(self.files@[a].0@ == pre_files[a].0@);
                    assert(self.files@[b].0@ == pre_files[b].0@);
                }
            }
        } else {
            // A fresh key: insert it before the first larger key.
            proof {
                if i < pre_files.len() {
                    lemma_lex_total(pre_files[i as int].0@, k@);
                    lemma_lex_lt_ne(k@, pre_files[i as int].0@);
                }
            }
            let ghost gv = v;
            self.files.insert(i, (k.to_owned(), v));
            proof {
                let s = self.files@;
                let ghost kvt = s[i as int];
                assert(kvt.0@ == k@);
                assert(kvt.1 == gv);
                let pre = pre_files.subrange(0, i as int);
                let post = pre_files.subrange(i as int, pre_files.len() as int);
                assert(s =~= pre + seq![kvt] + post);
                assert(pre_files =~= pre + post);
                assert forall|j: int| 0 <= j < post.len() implies #[trigger] post[j].0@ != k@ by {
                    assert(post[j] == pre_files[i + j]);
                    if j == 0 {
                    } else {
                        assert(lex_lt(pre_files[i as int].0@, pre_files[i + j].0@));
                        lemma_lex_trans(k@, pre_files[i as int].0@, pre_files[i + j].0@);
                    }
                    lemma_lex_lt_ne(k@, pre_files[i + j].0@);
                }
                lemma_files_map_insert_mid(pre, post, kvt);
                assert(files_map(s) == files_map(pre_files).insert(k@, gv@));
                assert forall|a: int, b: int| 0 <= a < b < s.len() implies lex_lt(
                    #[trigger] s[a].0@,
                    #[trigger] s[b].0@,
                ) by {
                    if b < i {
                        assert(s[a] == pre_files[a] && s[b] == pre_files[b]);
                    } else if a < i && b == i {
                        assert(s[a] == pre_files[a]);
                    } else if a < i && b > i {
                        assert(s[a] == pre_files[a]);
                        assert(s[b] == pre_files[b - 1]);
                        assert(lex_lt(pre_files[a].0@, pre_files[b - 1].0@));
                    } else if a == i {
                        assert(s[b] == pre_files[b - 1]);
                        if b - 1 == i {
                        } else {
                            assert(lex_lt(pre_files[i as int].0@, pre_files[b - 1].0@));
                            lemma_lex_trans(k@, pre_files[i as int].0@, pre_files[b - 1].0@);
                        }
                    } else {
                        assert(s[a] == pre_files[a - 1]);
                        assert(s[b] == pre_files[b - 1]);
                    }
                }
            }
        }
    }
}

/// The keys a list of seen paths covers.
pub open spec fn seen_set(seen: Seq<String>) -> Set<Seq<char>>
    decreases seen.len(),
{
    if seen.len() == 0 {
        Set::empty()
    } else {
        seen_set(seen.drop_last()).insert(seen.last()@)
    }
}

/// A map cut down to the keys in a set.
pub open spec fn restrict_keys(m: Map<Seq<char>, Seq<char>>, s: Set<Seq<char>>) -> Map<
    Seq<char>,
    Seq<char>,
> {
    Map::new(|k: Seq<char>| m.contains_key(k) && s.contains(k), |k: Seq<char>| m[k])
}

/// What handing one compiled template to the lockfile does to its map.
pub open spec fn apply_add(
    m: Map<Seq<char>, Seq<char>>,
    rel: Seq<char>,
    h: Seq<char>,
) -> Map<Seq<char>, Seq<char>> {
    if m.contains_key(rel) && m[rel] == h {
        m
    } else {
        m.insert(rel, h)
    }
}

/// Whether handing one compiled template to the lockfile writes its file.
pub open spec fn wrote(m: Map<Seq<char>, Seq<char>>, rel: Seq<char>, h: Seq<char>) -> bool {
    !(m.contains_key(rel) && m[rel] == h)
}

/// The fields of a JSON `files` object as a digest map; `None` when some
/// field is not a string.
pub open spec fn fields_files_map(fields: Seq<(Seq<char>, Jv)>) -> Option<
    Map<Seq<char>, Seq<char>>,
>
    decreases fields.len(),
{
    if fields.len() == 0 {
        Some(Map::empty())
    } else {
        match fields_files_map(fields.drop_last()) {
            Some(m) => match fields.last().1 {
                Jv::Str(h) => Some(m.insert(fields.last().0, h)),
                _ => None,
            },
            None => None,
        }
    }
}

/// What an on-disk lockfile text yields for a given tool version: the
/// digest map, or `None` on a parse failure or version mismatch.
pub open spec fn parse_lockfile(text: Seq<char>, version: Seq<char>) -> Option<
    Map<Seq<char>, Seq<char>>,
> {
    match crate::values::json_parse_of(text) {
        Some(Jv::Obj(fields)) => {
            if crate::values::obj_lookup(fields, "version"@) == Some(Jv::Str(version)) {
                match crate::values::obj_lookup(fields, "files"@) {
                    Some(Jv::Obj(ff)) => fields_files_map(ff),
                    _ => None,
                }
            } else {
                None
            }
        },
        _ => None,
    }
}

/// A non-string field anywhere poisons the whole `files` object.
proof fn lemma_fields_files_none(fields: Seq<(Seq<char>, Jv)>, j: int)
    requires
        0 <= j < fields.len(),
        !(fields[j].1 is Str),
    ensures
        fields_files_map(fields) is None,
    decreases fields.len(),
{
    if j < fields.len() - 1 {
        assert(fields.drop_last()[j] == fields[j]);
        lemma_fields_files_none(fields.drop_last(), j);
    }
}

/// The lockfile document as a value: the version and the digest map.
/// The digest map as a JSON object: one string field per path.
pub open spec fn files_jv(files: Seq<(String, String)>) -> Seq<(Seq<char>, Jv)> {
    files.map_values(|p: (String, String)| (p.0@, Jv::Str(p.1@)))
}

pub open spec fn lockfile_jv(version: Seq<char>, files: Seq<(String, String)>) -> Jv {
    Jv::Obj(seq![("files"@, Jv::Obj(files_jv(files))), ("version"@, Jv::Str(version))])
}

/// With sorted keys, the lockfile document is canonical: unique keys at
/// both levels, string leaves, no loose number text.
proof fn lemma_lockfile_jv_canonical(version: Seq<char>, files: Seq<(String, String)>)
    requires
        sorted_keys(files),
    ensures
        crate::values::canonical_jv(lockfile_jv(version, files)),
{
    reveal_strlit("version");
    reveal_strlit("files");
    assert("version"@.len() == 7 && "files"@.len() == 5);
    assert("files"@[0] == 'f' && "version"@[0] == 'v');
    assert forall|i: int, j: int|
        0 <= i < j < files_jv(files).len() implies lex_lt(
        #[trigger] files_jv(files)[i].0,
        #[trigger] files_jv(files)[j].0,
    ) by {
        assert(files_jv(files)[i].0 == files[i].0@);
        assert(files_jv(files)[j].0 == files[j].0@);
        assert(lex_lt(files[i].0@, files[j].0@));
    }
    lemma_files_jv_str(files);
    let df = seq![("files"@, Jv::Obj(files_jv(files))), ("version"@, Jv::Str(version))];
    assert(lex_lt("files"@, "version"@));
    assert forall|i: int, j: int|
        0 <= i < j < df.len() implies lex_lt(#[trigger] df[i].0, #[trigger] df[j].0) by {
        assert(df[0].0 == "files"@ && df[1].0 == "version"@);
    }
    let one = seq![("files"@, Jv::Obj(files_jv(files)))];
    assert(one.drop_last() =~= Seq::<(Seq<char>, Jv)>::empty());
    assert(crate::values::canonical_fields(Seq::<(Seq<char>, Jv)>::empty()));
    assert(crate::values::canonical_jv(Jv::Obj(files_jv(files))));
    assert(crate::values::canonical_fields(one));
    assert(crate::values::canonical_jv(Jv::Str(version)));
    assert(df.drop_last() =~= one);
    assert(df.last() == ("version"@, Jv::Str(version)));
    assert(crate::values::canonical_fields(df));
    assert(lockfile_jv(version, files) == Jv::Obj(df));
}

/// Every field of the digest object holds a string.
proof fn lemma_files_jv_str(files: Seq<(String, String)>)
    ensures
        crate::values::canonical_fields(files_jv(files)),
    decreases files.len(),
{
    if files.len() == 0 {
        assert(files_jv(files) =~= Seq::<(Seq<char>, Jv)>::empty());
    } else {
        lemma_files_jv_str(files.drop_last());
        assert(files_jv(files).drop_last() =~= files_jv(files.drop_last()));
        assert(files_jv(files).last() == (files.last().0@, Jv::Str(files.last().1@)));
        assert(crate::values::canonical_jv(files_jv(files).last().1));
    }
}

/// The digest object reads back as the digest map.
proof fn lemma_files_jv_parse(files: Seq<(String, String)>)
    ensures
        fields_files_map(files_jv(files)) == Some(files_map(files)),
    decreases files.len(),
{
    if files.len() == 0 {
        assert(files_jv(files) =~= Seq::<(Seq<char>, Jv)>::empty());
        assert(files_map(files) =~= Map::<Seq<char>, Seq<char>>::empty());
    } else {
        lemma_files_jv_parse(files.drop_last());
        assert(files_jv(files).drop_last() =~= files_jv(files.drop_last()));
        assert(files_jv(files).last() == (files.last().0@, Jv::Str(files.last().1@)));
    }
}

/// Per-run lockfile state: the loaded digest map, the paths seen this
/// run, and whether anything changed.
pub struct Lockfile {
    pub filepath: String,
    pub seen: Vec<String>,
    pub contents: Contents,
    pub newly_created: bool,
    pub modified: bool,
}

impl Lockfile {
    /// The digest map is kept key-sorted.
    pub open spec fn wf(&self) -> bool {
        sorted_keys(self.contents.files@)
    }

    /// The digest map this lockfile holds.
    pub open spec fn model(&self) -> Map<Seq<char>, Seq<char>> {
        files_map(self.contents.files@)
    }

    /// Start the lockfile for a run: forced or unreadable or unparsable
    /// or version-mismatched state starts afresh (marked modified, so it
    /// will be rewritten); a lockfile is a cache, never a hard failure.
    pub fn load(root: &str, force: bool, version: &str, disk: Option<&str>) -> (r: Lockfile)
        ensures
            r.wf(),
            r.seen@.len() == 0,
            r.modified == r.newly_created,
            r.contents.version@ == version@,
            r.filepath@ == root@ + "/"@ + ".zetch.lock"@,
            ({
                let loaded = if force {
                    None
                } else {
                    match disk {
                        Some(t) => parse_lockfile(t@, version@),
                        None => None::<Map<Seq<char>, Seq<char>>>,
                    }
                };
                match loaded {
                    Some(m) => !r.modified && r.model() == m,
                    None => r.modified && r.contents.files@.len() == 0,
                }
            }),
    {
        let mut fp: Vec<char> = Vec::new();
        let rv = crate::strutil::chars_vec(root);
        crate::strutil::push_all(&mut fp, &rv);
        fp.push('/');
        let lv = crate::strutil::chars_vec(crate::walker::lockfile_name());
        crate::strutil::push_all(&mut fp, &lv);
        proof {
            assert(fp@ =~= root@ + "/"@ + ".zetch.lock"@) by {
                reveal_strlit("/");
                assert("/"@ =~= seq!['/']);
            }
        }
        let filepath = crate::strutil::string_from_chars(&fp);
        if force {
            return Lockfile {
                filepath,
                seen: Vec::new(),
                contents: Contents::default(version),
                newly_created: true,
                modified: true,
            };
        }
        let text = match disk {
            Some(t) => t,
            None => {
                return Lockfile {
                    filepath,
                    seen: Vec::new(),
                    contents: Contents::default(version),
                    newly_created: true,
                    modified: true,
                };
            },
        };
        let parsed = match crate::values::json_parse(text) {
            Some(v) => v,
            None => {
                return Lockfile {
                    filepath,
                    seen: Vec::new(),
                    contents: Contents::default(version),
                    newly_created: true,
                    modified: true,
                };
            },
        };
        let version_ok: bool = match parsed.obj_get("version") {
            Some(vv) => match vv {
                JVal::Str(s) => crate::values::str_eq(s.as_str(), version),
                _ => false,
            },
            None => false,
        };
        let mut contents = Contents::default(version);
        if !version_ok {
            return Lockfile {
                filepath,
                seen: Vec::new(),
                contents,
                newly_created: true,
                modified: true,
            };
        }
        let files_ok: bool = match parsed.obj_get("files") {
            Some(fv) => match fv {
                JVal::Obj(_) => true,
                _ => false,
            },
            None => false,
        };
        if !files_ok {
            return Lockfile {
                filepath,
                seen: Vec::new(),
                contents,
                newly_created: true,
                modified: true,
            };
        }
        let ghost pfields = (match parsed@ {
            Jv::Obj(f) => f,
            _ => Seq::empty(),
        });
        let ghost ffg = (match crate::values::obj_lookup(pfields, "files"@) {
            Some(Jv::Obj(ff)) => ff,
            _ => Seq::empty(),
        });
        let ff: &Vec<(String, JVal)> = match &parsed {
            JVal::Obj(_) => match parsed.obj_get("files") {
                Some(fv) => match fv {
                    JVal::Obj(ffv) => ffv,
                    _ => {
                        return Lockfile {
                            filepath,
                            seen: Vec::new(),
                            contents,
                            newly_created: true,
                            modified: true,
                        };
                    },
                },
                None => {
                    return Lockfile {
                        filepath,
                        seen: Vec::new(),
                        contents,
                        newly_created: true,
                        modified: true,
                    };
                },
            },
            _ => {
                return Lockfile {
                    filepath,
                    seen: Vec::new(),
                    contents,
                    newly_created: true,
                    modified: true,
                };
            },
        };
        proof {
            crate::values::lemma_jv_of_fields(ff@);
            assert(jv_of_fields_eq(ff@, ffg));
        }
        let mut i: usize = 0;
        let n = ff.len();
        let mut bad = false;
        while i < n && !bad
            invariant
                i <= n,
                n == ff@.len(),
                ffg.len() == n,
                forall|j: int| 0 <= j < n ==> ffg[j] == (ff@[j].0@, ff@[j].1@),
                sorted_keys(contents.files@),
                contents.version@ == version@,
                !bad ==> fields_files_map(ffg.subrange(0, i as int)) == Some(
                    files_map(contents.files@),
                ),
                bad ==> fields_files_map(ffg) is None,
            decreases n - i,
        {
            let ghost pre = ffg.subrange(0, i as int);
            match &ff[i].1 {
                JVal::Str(h) => {
                    contents.upsert(ff[i].0.as_str(), h.clone());
                },
                _ => {
                    proof {
                        assert(!(ffg[i as int].1 is Str));
                        lemma_fields_files_none(ffg, i as int);
                    }
                    bad = true;
                },
            }
            i = i + 1;
            proof {
                if !bad {
                    let cur = ffg.subrange(0, i as int);
                    assert(cur.drop_last() =~= pre);
                    assert(cur.last() == ffg[i - 1]);
                }
            }
        }
        if bad {
            return Lockfile {
                filepath,
                seen: Vec::new(),
                contents: Contents::default(version),
                newly_created: true,
                modified: true,
            };
        }
        proof {
            assert(ffg.subrange(0, ffg.len() as int) =~= ffg);
        }
        Lockfile { filepath, seen: Vec::new(), contents, newly_created: false, modified: false }
    }

    /// Record one compiled template: compare its digest with the stored
    /// one, update the map when it differs, and answer whether the caller
    /// must write the output file.
    pub fn add_template(&mut self, template: &crate::walker::Template, compiled: &str) -> (written:
        bool)
        requires
            old(self).wf(),
        ensures
            final(self).wf(),
            written == wrote(
                old(self).model(),
                template.rel_path@,
                sha256_hex_of(compiled@),
            ),
            final(self).model() == apply_add(
                old(self).model(),
                template.rel_path@,
                sha256_hex_of(compiled@),
            ),
            final(self).modified == (old(self).modified || written),
            crate::walker::strs_view(final(self).seen@) == crate::walker::strs_view(
                old(self).seen@,
            ).push(template.rel_path@),
            final(self).filepath == old(self).filepath,
            final(self).newly_created == old(self).newly_created,
            final(self).contents.version == old(self).contents.version,
    {
        let hashed = hash_contents(compiled);
        let identical: bool = match self.contents.get_hash(template.rel_path.as_str()) {
            Some(old_hash) => crate::values::str_eq(old_hash.as_str(), hashed.as_str()),
            None => false,
        };
        if !identical {
            self.contents.upsert(template.rel_path.as_str(), hashed);
            self.modified = true;
        }
        self.seen.push(template.rel_path.clone());
        proof {
            assert(crate::walker::strs_view(self.seen@) =~= crate::walker::strs_view(
                old(self).seen@,
            ).push(template.rel_path@));
            if identical {
                assert(self.model() =~= apply_add(
                    old(self).model(),
                    template.rel_path@,
                    sha256_hex_of(compiled@),
                ));
            }
        }
        !identical
    }

    /// Prune entries for templates not seen this run, then hand back the
    /// serialized lockfile text when anything changed this run.
    #[verifier::rlimit(100)]
    pub fn sync(&mut self) -> (out: Option<String>)
        requires
            old(self).wf(),
        ensures
            final(self).wf(),
            final(self).model() == restrict_keys(old(self).model(), seen_set(old(self).seen@)),
            forall|k: Seq<char>|
                old(self).model().contains_key(k) && !seen_set(old(self).seen@).contains(k)
                    ==> !final(self).model().contains_key(k),
            final(self).modified == (old(self).modified || exists|k: Seq<char>|
                old(self).model().contains_key(k) && !seen_set(old(self).seen@).contains(k)),
            match out {
                Some(text) => final(self).modified && text@ == crate::values::json_text_of(
                    lockfile_jv(final(self).contents.version@, final(self).contents.files@),
                ) && parse_lockfile(text@, final(self).contents.version@) == Some(
                    final(self).model(),
                ),
                None => !final(self).modified,
            },
            final(self).contents.version == old(self).contents.version,
            final(self).filepath == old(self).filepath,
            final(self).newly_created == old(self).newly_created,
            final(self).seen == old(self).seen,
    {
        let ghost sset = seen_set(self.seen@);
        let ghost pre_files = self.contents.files@;
        let mut kept: Vec<(String, String)> = Vec::new();
        let mut i: usize = 0;
        let mut pruned = false;
        proof {
            assert(files_map(kept@) =~= restrict_keys(
                files_map(pre_files.subrange(0, 0)),
                sset,
            ));
        }
        while i < self.contents.files.len()
            invariant
                i <= self.contents.files@.len(),
                *self == *old(self),
                pre_files == self.contents.files@,
                sset == seen_set(self.seen@),
                sorted_keys(pre_files),
                sorted_keys(kept@),
                files_map(kept@) == restrict_keys(files_map(pre_files.subrange(0, i as int)), sset),
                forall|a: int|
                    0 <= a < kept@.len() ==> exists|c: int|
                        0 <= c < i && #[trigger] pre_files[c] == #[trigger] kept@[a],
                pruned == exists|j: int|
                    0 <= j < i && !sset.contains(#[trigger] pre_files[j].0@),
            decreases self.contents.files@.len() - i,
        {
            let ghost pre = pre_files.subrange(0, i as int);
            let keep = seen_contains(&self.seen, self.contents.files[i].0.as_str());
            if keep {
                let pair = (self.contents.files[i].0.clone(), self.contents.files[i].1.clone());
                proof {
                    assert(pair == pre_files[i as int]);
                }
                let ghost kept_pre = kept@;
                kept.push(pair);
                proof {
                    assert(kept@.drop_last() =~= kept_pre);
                    assert forall|a: int, b: int|
                        0 <= a < b < kept@.len() implies lex_lt(
                        #[trigger] kept@[a].0@,
                        #[trigger] kept@[b].0@,
                    ) by {
                        if b == kept@.len() - 1 {
                            let c = choose|c: int|
                                0 <= c < i && #[trigger] pre_files[c] == kept_pre[a];
                            assert(lex_lt(pre_files[c].0@, pre_files[i as int].0@));
                        }
                    }
                }
            } else {
                pruned = true;
            }
            i = i + 1;
            proof {
                let cur = pre_files.subrange(0, i as int);
                assert(cur.drop_last() =~= pre);
                assert(cur.last() == pre_files[i - 1]);
                if keep {
                    assert(files_map(kept@) =~= restrict_keys(files_map(cur), sset));
                } else {
                    assert(files_map(kept@) =~= restrict_keys(files_map(cur), sset));
                }
            }
        }
        proof {
            assert(pre_files.subrange(0, pre_files.len() as int) =~= pre_files);
        }
        if pruned {
            self.modified = true;
        }
        self.contents.files = kept;
        proof {
            lemma_stale_key_exists(pre_files, sset);
            assert(pruned == (exists|k: Seq<char>|
                files_map(pre_files).contains_key(k) && !sset.contains(k)));
            assert(old(self).model() == files_map(pre_files));
            assert(seen_set(old(self).seen@) == sset);
        }
        if self.modified {
            let text = render_lockfile_text(&self.contents);
            Some(text)
        } else {
            None
        }
    }
}

/// Some listed key lies outside the set exactly when some map key does.
proof fn lemma_stale_key_exists(files: Seq<(String, String)>, s: Set<Seq<char>>)
    requires
        sorted_keys(files),
    ensures
        (exists|j: int| 0 <= j < files.len() && !s.contains(#[trigger] files[j].0@)) <==> (
        exists|k: Seq<char>| files_map(files).contains_key(k) && !s.contains(k)),
{
    if exists|j: int| 0 <= j < files.len() && !s.contains(#[trigger] files[j].0@) {
        let j = choose|j: int| 0 <= j < files.len() && !s.contains(#[trigger] files[j].0@);
        lemma_files_map_at(files, j);
        assert(files_map(files).contains_key(files[j].0@) && !s.contains(files[j].0@));
    }
    if exists|k: Seq<char>| files_map(files).contains_key(k) && !s.contains(k) {
        let k = choose|k: Seq<char>| files_map(files).contains_key(k) && !s.contains(k);
        lemma_files_map_dom(files, k);
        let j = choose|j: int| 0 <= j < files.len() && #[trigger] files[j].0@ == k;
        assert(!s.contains(files[j].0@));
    }
}

/// Whether a path was seen this run.
fn seen_contains(seen: &Vec<String>, k: &str) -> (r: bool)
    ensures
        r == seen_set(seen@).contains(k@),
{
    let mut i: usize = 0;
    while i < seen.len()
        invariant
            i <= seen@.len(),
            !seen_set(seen@.subrange(0, i as int)).contains(k@),
        decreases seen@.len() - i,
    {
        let ghost pre = seen@.subrange(0, i as int);
        if crate::values::str_eq(seen[i].as_str(), k) {
            proof {
                lemma_seen_set_at(seen@, i as int);
            }
            return true;
        }
        i = i + 1;
        proof {
            let cur = seen@.subrange(0, i as int);
            assert(cur.drop_last() =~= pre);
            assert(cur.last() == seen@[i - 1]);
        }
    }
    proof {
        assert(seen@.subrange(0, seen@.len() as int) =~= seen@);
    }
    false
}

/// Every listed path is in the seen set.
proof fn lemma_seen_set_at(seen: Seq<String>, i: int)
    requires
        0 <= i < seen.len(),
    ensures
        seen_set(seen).contains(seen[i]@),
    decreases seen.len(),
{
    if i < seen.len() - 1 {
        assert(seen.drop_last()[i] == seen[i]);
        lemma_seen_set_at(seen.drop_last(), i);
    }
}

/// Check that an object's fields line up with a ghost field list.
pub open spec fn jv_of_fields_eq(fields: Seq<(String, JVal)>, g: Seq<(Seq<char>, Jv)>) -> bool {
    g.len() == fields.len() && forall|j: int|
        0 <= j < fields.len() ==> g[j] == (#[trigger] fields[j].0@, fields[j].1@)
}

/// Serialize the lockfile body, keys already sorted; the text parses
/// back, under the same version, to exactly the digest map it holds.
#[verifier::rlimit(60)]
fn render_lockfile_text(contents: &Contents) -> (r: String)
    requires
        sorted_keys(contents.files@),
    ensures
        r@ == crate::values::json_text_of(lockfile_jv(contents.version@, contents.files@)),
        parse_lockfile(r@, contents.version@) == Some(files_map(contents.files@)),
{
    let mut files_v: Vec<(String, JVal)> = Vec::new();
    let mut i: usize = 0;
    while i < contents.files.len()
        invariant
            i <= contents.files@.len(),
            files_v@.len() == i,
            forall|j: int|
                0 <= j < i ==> #[trigger] files_v@[j].0@ == contents.files@[j].0@ && files_v@[j].1@
                    == Jv::Str(contents.files@[j].1@),
        decreases contents.files@.len() - i,
    {
        let pair = (contents.files[i].0.clone(), JVal::Str(contents.files[i].1.clone()));
        proof {
            assert(pair.0@ == contents.files@[i as int].0@);
            assert(pair.1@ == Jv::Str(contents.files@[i as int].1@));
        }
        let ghost gpair = pair;
        let ghost prev = files_v@;
        files_v.push(pair);
        i = i + 1;
        proof {
            assert(files_v@[i - 1] == gpair);
            assert(gpair.0@ == contents.files@[i - 1].0@);
            assert(gpair.1@ == Jv::Str(contents.files@[i - 1].1@));
            assert(files_v@[i - 1].0@ == contents.files@[i - 1].0@);
            assert(files_v@[i - 1].1@ == Jv::Str(contents.files@[i - 1].1@));
            assert forall|j: int|
                0 <= j < i implies #[trigger] files_v@[j].0@ == contents.files@[j].0@
                && files_v@[j].1@ == Jv::Str(contents.files@[j].1@) by {
                if j < i - 1 {
                    assert(files_v@[j] == prev[j]);
                    assert(prev[j].0@ == contents.files@[j].0@);
                    assert(prev[j].1@ == Jv::Str(contents.files@[j].1@));
                } else {
                    assert(files_v@[j] == gpair);
                }
            }
        }
    }
    let mut doc_fields: Vec<(String, JVal)> = Vec::new();
    doc_fields.push(("files".to_owned(), JVal::Obj(files_v)));
    doc_fields.push(("version".to_owned(), JVal::Str(contents.version.clone())));
    let doc = JVal::Obj(doc_fields);
    proof {
        crate::values::lemma_jv_of_fields(doc_fields@);
        crate::values::lemma_jv_of_fields(files_v@);
        let g = lockfile_jv(contents.version@, contents.files@);
        let gmapped = files_jv(contents.files@);
        assert(crate::values::jv_of_fields(files_v@) =~= gmapped);
        assert(doc_fields@[0].1@ == Jv::Obj(crate::values::jv_of_fields(files_v@)));
        assert(doc_fields@[1].1@ == Jv::Str(contents.version@));
        assert(crate::values::jv_of_fields(doc_fields@) =~= seq![
            ("files"@, Jv::Obj(gmapped)),
            ("version"@, Jv::Str(contents.version@)),
        ]);
        assert(doc@ == g);
    }
    let text = json_stringify(&doc);
    proof {
        lemma_lockfile_jv_canonical(contents.version@, contents.files@);
        assert(crate::values::json_parse_of(text@) == Some(
            lockfile_jv(contents.version@, contents.files@),
        ));
        reveal_strlit("version");
        reveal_strlit("files");
        assert("version"@.len() == 7 && "files"@.len() == 5);
        let df = seq![
            ("files"@, Jv::Obj(files_jv(contents.files@))),
            ("version"@, Jv::Str(contents.version@)),
        ];
        let one = seq![("files"@, Jv::Obj(files_jv(contents.files@)))];
        assert(df.drop_last() =~= one);
        assert(df.last() == ("version"@, Jv::Str(contents.version@)));
        assert(crate::values::obj_lookup(one, "files"@) == Some(
            Jv::Obj(files_jv(contents.files@)),
        ));
        assert(crate::values::obj_lookup(df, "files"@) == Some(
            Jv::Obj(files_jv(contents.files@)),
        ));
        assert(crate::values::obj_lookup(df, "version"@) == Some(Jv::Str(contents.version@)));
        lemma_files_jv_parse(contents.files@);
        assert(parse_lockfile(text@, contents.version@) == Some(files_map(contents.files@)));
    }
    text
}

/// Fold a run's templates (relative path and compiled digest) into the
/// map, in order.
pub open spec fn apply_all(
    m: Map<Seq<char>, Seq<char>>,
    ts: Seq<(Seq<char>, Seq<char>)>,
) -> Map<Seq<char>, Seq<char>>
    decreases ts.len(),
{
    if ts.len() == 0 {
        m
    } else {
        apply_add(apply_all(m, ts.drop_last()), ts.last().0, ts.last().1)
    }
}

/// How many of a run's templates are written.
pub open spec fn writes_count(m: Map<Seq<char>, Seq<char>>, ts: Seq<(Seq<char>, Seq<char>)>) -> int
    decreases ts.len(),
{
    if ts.len() == 0 {
        0
    } else {
        writes_count(m, ts.drop_last()) + (if wrote(
            apply_all(m, ts.drop_last()),
            ts.last().0,
            ts.last().1,
        ) {
            1int
        } else {
            0int
        })
    }
}

/// The relative paths a run touches.
pub open spec fn rels_of(ts: Seq<(Seq<char>, Seq<char>)>) -> Set<Seq<char>>
    decreases ts.len(),
{
    if ts.len() == 0 {
        Set::empty()
    } else {
        rels_of(ts.drop_last()).insert(ts.last().0)
    }
}

/// After a run, the map binds every template's path to its digest.
proof fn lemma_apply_all_binds(m: Map<Seq<char>, Seq<char>>, ts: Seq<(Seq<char>, Seq<char>)>)
    requires
        forall|i: int, j: int| 0 <= i < j < ts.len() ==> #[trigger] ts[i].0 != #[trigger] ts[j].0,
    ensures
        forall|i: int|
            0 <= i < ts.len() ==> apply_all(m, ts).contains_key(#[trigger] ts[i].0) && apply_all(
                m,
                ts,
            )[ts[i].0] == ts[i].1,
    decreases ts.len(),
{
    if ts.len() > 0 {
        assert forall|i: int, j: int|
            0 <= i < j < ts.drop_last().len() implies #[trigger] ts.drop_last()[i].0
            != #[trigger] ts.drop_last()[j].0 by {
            assert(ts.drop_last()[i] == ts[i] && ts.drop_last()[j] == ts[j]);
        }
        lemma_apply_all_binds(m, ts.drop_last());
        assert forall|i: int|
            0 <= i < ts.len() implies apply_all(m, ts).contains_key(#[trigger] ts[i].0)
            && apply_all(m, ts)[ts[i].0] == ts[i].1 by {
            if i < ts.len() - 1 {
                assert(ts.drop_last()[i] == ts[i]);
                assert(ts[i].0 != ts[ts.len() - 1].0);
            }
        }
    }
}

/// A map already binding every template's path to its digest is a fixed
/// point: applying the run again changes nothing.
proof fn lemma_apply_all_fixed(m: Map<Seq<char>, Seq<char>>, ts: Seq<(Seq<char>, Seq<char>)>)
    requires
        forall|i: int|
            0 <= i < ts.len() ==> m.contains_key(#[trigger] ts[i].0) && m[ts[i].0] == ts[i].1,
    ensures
        apply_all(m, ts) == m,
        writes_count(m, ts) == 0,
    decreases ts.len(),
{
    if ts.len() > 0 {
        assert forall|i: int|
            0 <= i < ts.drop_last().len() implies m.contains_key(#[trigger] ts.drop_last()[i].0)
            && m[ts.drop_last()[i].0] == ts.drop_last()[i].1 by {
            assert(ts.drop_last()[i] == ts[i]);
        }
        lemma_apply_all_fixed(m, ts.drop_last());
        assert(ts[ts.len() - 1] == ts.last());
    }
}

/// Idempotence: after a run over a set of templates with distinct paths
/// and a pruning sync, a second identical run writes no file, changes no
/// map entry, and prunes nothing, so the lockfile is left unmodified.
pub proof fn lemma_render_idempotent(
    m: Map<Seq<char>, Seq<char>>,
    ts: Seq<(Seq<char>, Seq<char>)>,
)
    requires
        forall|i: int, j: int| 0 <= i < j < ts.len() ==> #[trigger] ts[i].0 != #[trigger] ts[j].0,
    ensures
        ({
            let m1 = restrict_keys(apply_all(m, ts), rels_of(ts));
            writes_count(m1, ts) == 0 && apply_all(m1, ts) == m1 && restrict_keys(
                m1,
                rels_of(ts),
            ) == m1
        }),
{
    let m1 = restrict_keys(apply_all(m, ts), rels_of(ts));
    lemma_apply_all_binds(m, ts);
    lemma_rels_of_members(ts);
    assert forall|i: int|
        0 <= i < ts.len() implies m1.contains_key(#[trigger] ts[i].0) && m1[ts[i].0]
        == ts[i].1 by {
        assert(rels_of(ts).contains(ts[i].0));
    }
    lemma_apply_all_fixed(m1, ts);
    assert(restrict_keys(m1, rels_of(ts)) =~= m1);
}

/// Every touched path is among the run's paths.
proof fn lemma_rels_of_members(ts: Seq<(Seq<char>, Seq<char>)>)
    ensures
        forall|i: int| 0 <= i < ts.len() ==> rels_of(ts).contains(#[trigger] ts[i].0),
    decreases ts.len(),
{
    if ts.len() > 0 {
        lemma_rels_of_members(ts.drop_last());
        assert forall|i: int|
            0 <= i < ts.len() implies rels_of(ts).contains(#[trigger] ts[i].0) by {
            if i < ts.len() - 1 {
                assert(ts.drop_last()[i] == ts[i]);
            }
        }
    }
}

} // verus!
