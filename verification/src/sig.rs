//! The signature database: loading `identifier=hex_pattern` lines into an
//! immutable store, and matching file contents against the stored patterns
//! by literal byte prefix.
use vstd::prelude::*;
use vstd::pervasive::VecAdditionalExecFns;
use crate::bytes::{is_prefix_of, has_prefix, copy_bytes, bytes_eq, subvec, views_of};
use crate::hexcode::{is_hex_str, spec_hex_decode, decode_hex};
use crate::kvmap::{
    key_index, has_key, map_val, map_insert, unique_keys, lemma_key_index,
    lemma_key_index_is_first, lemma_map_insert_lookup, lemma_map_insert_other,
    lemma_map_insert_unique,
};

verus! {

/// One loaded signature: a named, non-empty byte pattern.
pub struct Signature {
    pub id: Vec<u8>,
    pub pattern: Vec<u8>,
}

/// The signature store: identifiers mapped to decoded patterns, in first-seen
/// order, identifiers unique.
pub struct SignatureStore {
    sigs: Vec<Signature>,
}

/// Loading the database failed.
#[derive(PartialEq, Eq, Structural, Debug)]
pub enum LoadError {
    /// A signature line carried a pattern that is not well-formed hex; the
    /// index of the first such line.
    InvalidSignatureEncoding { line: usize },
}

/// The pairs (identifier, pattern) of a signature list.
pub open spec fn sig_views(s: Seq<Signature>) -> Seq<(Seq<u8>, Seq<u8>)> {
    s.map(|i: int, sg: Signature| (sg.id@, sg.pattern@))
}

impl View for SignatureStore {
    type V = Seq<(Seq<u8>, Seq<u8>)>;

    closed spec fn view(&self) -> Seq<(Seq<u8>, Seq<u8>)> {
        sig_views(self.sigs@)
    }
}

/// The index of the first `=` in `l`, or `l.len()` if none.
pub open spec fn find_eq(l: Seq<u8>) -> int
    decreases l.len(),
{
    if l.len() == 0 {
        0
    } else if l[0] == 61 {
        0
    } else {
        1 + find_eq(l.drop_first())
    }
}

/// `find_eq` points at the first `=`: everything before it is another byte,
/// and if it is in range it holds `=`.
pub proof fn lemma_find_eq(l: Seq<u8>)
    ensures
        0 <= find_eq(l) <= l.len(),
        find_eq(l) < l.len() ==> l[find_eq(l)] == 61,
        forall|j: int| 0 <= j < find_eq(l) ==> l[j] != 61,
    decreases l.len(),
{
    if l.len() > 0 && l[0] != 61 {
        lemma_find_eq(l.drop_first());
        assert forall|j: int| 0 <= j < find_eq(l) implies l[j] != 61 by {
            if j >= 1 {
                assert(l.drop_first()[j - 1] == l[j]);
                assert(l.drop_first()[j - 1] != 61);
            }
        }
    }
}

/// `l` splits into exactly two parts on `=`: it holds exactly one `=`.
pub open spec fn is_sig_line(l: Seq<u8>) -> bool {
    find_eq(l) < l.len() && (forall|j: int| find_eq(l) < j < l.len() ==> l[j] != 61)
}

/// The identifier part of a signature line: the bytes before the `=`.
pub open spec fn line_id(l: Seq<u8>) -> Seq<u8> {
    l.subrange(0, find_eq(l))
}

/// The hex part of a signature line: the bytes after the `=`.
pub open spec fn line_hex(l: Seq<u8>) -> Seq<u8> {
    l.subrange(find_eq(l) + 1, l.len() as int)
}

/// A signature line whose hex part does not decode: the one fatal load error.
pub open spec fn line_bad(l: Seq<u8>) -> bool {
    is_sig_line(l) && !is_hex_str(line_hex(l))
}

/// A line that contributes a store entry: exactly one `=`, well-formed and
/// non-empty hex (an empty pattern would match every file and is skipped).
pub open spec fn is_entry_line(l: Seq<u8>) -> bool {
    is_sig_line(l) && is_hex_str(line_hex(l)) && line_hex(l).len() > 0
}

/// The store contents after loading `lines` in order: each entry line
/// inserts or overwrites its identifier; other lines are skipped.
pub open spec fn load_model(lines: Seq<Seq<u8>>) -> Seq<(Seq<u8>, Seq<u8>)>
    decreases lines.len(),
{
    if lines.len() == 0 {
        Seq::empty()
    } else {
        let prev = load_model(lines.drop_last());
        let l = lines.last();
        if is_entry_line(l) {
            map_insert(prev, line_id(l), spec_hex_decode(line_hex(l)))
        } else {
            prev
        }
    }
}

/// The identifier of the first pattern in `m` that prefixes `data`, if any.
pub open spec fn match_model(m: Seq<(Seq<u8>, Seq<u8>)>, data: Seq<u8>) -> Option<Seq<u8>>
    decreases m.len(),
{
    if m.len() == 0 {
        None
    } else if is_prefix_of(m[0].1, data) {
        Some(m[0].0)
    } else {
        match_model(m.drop_first(), data)
    }
}

/// Splits a line on its `=` if it holds exactly one, into the identifier and
/// the hex part.
fn split_line(l: &Vec<u8>) -> (r: Option<(Vec<u8>, Vec<u8>)>)
    ensures
        (r is Some) <==> is_sig_line(l@),
        r matches Some((id, hx)) ==> id@ == line_id(l@) && hx@ == line_hex(l@),
{
    proof {
        lemma_find_eq(l@);
    }
    let mut k: usize = 0;
    while k < l.len() && l[k] != 61
        invariant
            0 <= k <= l@.len(),
            forall|j: int| 0 <= j < k ==> l@[j] != 61,
        decreases l@.len() - k,
    {
        k = k + 1;
    }
    assert(find_eq(l@) == k) by {
        lemma_find_eq(l@);
    }
    if k == l.len() {
        return None;
    }
    let mut j: usize = k + 1;
    while j < l.len()
        invariant
            k < j <= l@.len(),
            k == find_eq(l@),
            forall|t: int| k < t < j ==> l@[t] != 61,
        decreases l@.len() - j,
    {
        if l[j] == 61 {
            assert(!is_sig_line(l@));
            return None;
        }
        j = j + 1;
    }
    assert(is_sig_line(l@));
    let id = subvec(l, 0, k);
    let hx = subvec(l, k + 1, l.len());
    Some((id, hx))
}

/// The first index in `sigs` whose identifier is `id`, or the length.
fn find_index(sigs: &Vec<Signature>, id: &Vec<u8>) -> (r: usize)
    ensures
        r as int == key_index(sig_views(sigs@), id@),
{
    let ghost m = sig_views(sigs@);
    let mut i: usize = 0;
    while i < sigs.len()
        invariant
            0 <= i <= sigs@.len(),
            m == sig_views(sigs@),
            forall|j: int| 0 <= j < i ==> (#[trigger] m[j]).0 != id@,
        decreases sigs@.len() - i,
    {
        if bytes_eq(&sigs[i].id, id) {
            proof {
                lemma_key_index_is_first(m, id@, i as int);
            }
            return i;
        }
        i = i + 1;
    }
    proof {
        lemma_key_index_is_first(m, id@, sigs@.len() as int);
    }
    sigs.len()
}

/// Inserts or overwrites the entry for `id`.
fn store_insert(sigs: &mut Vec<Signature>, id: Vec<u8>, pattern: Vec<u8>)
    ensures
        sig_views(final(sigs)@) == map_insert(sig_views(old(sigs)@), id@, pattern@),
{
    let ghost m = sig_views(sigs@);
    let idx = find_index(sigs, &id);
    if idx < sigs.len() {
        sigs.set(idx, Signature { id, pattern });
        assert(sig_views(sigs@) =~= map_insert(m, id@, pattern@));
    } else {
        sigs.push(Signature { id, pattern });
        assert(sig_views(sigs@) =~= map_insert(m, id@, pattern@));
    }
}

impl SignatureStore {
    /// Identifiers are unique and every pattern is non-empty.
    pub open spec fn wf(&self) -> bool {
        unique_keys(self@) && (forall|i: int|
            0 <= i < self@.len() ==> (#[trigger] self@[i]).1.len() > 0)
    }

    /// Parses the signature database, one line per entry.
    ///
    /// A line with exactly one `=` is a signature line; its hex part must
    /// decode, or loading fails with the index of the first offending line.
    /// Any other line, and a signature line with an empty pattern, is
    /// skipped. A repeated identifier overwrites the earlier pattern.
    pub fn load(lines: &Vec<Vec<u8>>) -> (r: Result<SignatureStore, LoadError>)
        ensures
            (r is Ok) <==> (forall|j: int| 0 <= j < lines@.len() ==> !line_bad(#[trigger] lines@[j]@)),
            r is Ok ==> r->Ok_0@ == load_model(views_of(lines@)),
            r is Ok ==> r->Ok_0.wf(),
            r matches Err(LoadError::InvalidSignatureEncoding { line }) ==> line < lines@.len()
                && line_bad(lines@[line as int]@) && (forall|j: int|
                0 <= j < line ==> !line_bad(#[trigger] lines@[j]@)),
    {
        let ghost all = views_of(lines@);
        let mut sigs: Vec<Signature> = Vec::new();
        let mut i: usize = 0;
        while i < lines.len()
            invariant
                0 <= i <= lines@.len(),
                all == views_of(lines@),
                forall|j: int| 0 <= j < i ==> !line_bad(#[trigger] lines@[j]@),
                sig_views(sigs@) == load_model(all.take(i as int)),
            decreases lines@.len() - i,
        {
            let ghost prev = sig_views(sigs@);
            match split_line(&lines[i]) {
                None => {
                    assert(all.take(i + 1 as int).drop_last() =~= all.take(i as int));
                    assert(sig_views(sigs@) =~= load_model(all.take(i + 1 as int)));
                },
                Some((id, hx)) => {
                    match decode_hex(&hx) {
                        Err(_) => {
                            return Err(LoadError::InvalidSignatureEncoding { line: i });
                        },
                        Ok(pattern) => {
                            if pattern.len() > 0 {
                                store_insert(&mut sigs, id, pattern);
                            } else {
                                assert(!is_entry_line(lines@[i as int]@)) by {
                                    crate::hexcode::lemma_hex_decode_len(line_hex(lines@[i as int]@));
                                }
                            }
                            assert(all.take(i + 1 as int).drop_last() =~= all.take(i as int));
                            assert(sig_views(sigs@) =~= load_model(all.take(i + 1 as int)));
                        },
                    }
                },
            }
            i = i + 1;
        }
        assert(all.take(lines@.len() as int) =~= all);
        let store = SignatureStore { sigs };
        proof {
            lemma_load_model_wf(all);
        }
        Ok(store)
    }

    /// How many signatures the store holds.
    pub fn len(&self) -> (r: usize)
        ensures
            r == self@.len(),
    {
        self.sigs.len()
    }

    /// The loaded signatures, in store order.
    pub fn get_database(&self) -> (r: &Vec<Signature>)
        ensures
            sig_views(r@) == self@,
    {
        &self.sigs
    }

    /// The identifier of the first signature whose pattern is a byte-for-byte
    /// prefix of `data`, or `None` if no pattern is.
    pub fn match_prefix(&self, data: &Vec<u8>) -> (r: Option<Vec<u8>>)
        ensures
            (r is Some) <==> (match_model(self@, data@) is Some),
            r matches Some(id) ==> Some(id@) == match_model(self@, data@),
            (r is None) <==> (forall|i: int|
                0 <= i < self@.len() ==> !is_prefix_of((#[trigger] self@[i]).1, data@)),
    {
        let ghost m = self@;
        proof {
            assert(m.skip(0) =~= m);
        }
        let mut i: usize = 0;
        while i < self.sigs.len()
            invariant
                0 <= i <= self.sigs@.len(),
                m == self@,
                match_model(m, data@) == match_model(m.skip(i as int), data@),
                forall|j: int| 0 <= j < i ==> !is_prefix_of((#[trigger] m[j]).1, data@),
            decreases self.sigs@.len() - i,
        {
            if has_prefix(data, &self.sigs[i].pattern) {
                assert(m.skip(i as int)[0] == m[i as int]);
                let id = copy_bytes(&self.sigs[i].id);
                proof {
                    lemma_match_model_none(m, data@);
                }
                return Some(id);
            }
            assert(m.skip(i as int).drop_first() =~= m.skip(i + 1 as int));
            i = i + 1;
        }
        assert(m.skip(self.sigs@.len() as int) =~= Seq::<(Seq<u8>, Seq<u8>)>::empty());
        proof {
            lemma_match_model_none(m, data@);
        }
        None
    }
}

/// `match_model` returns `None` exactly when no stored pattern prefixes the
/// data.
pub proof fn lemma_match_model_none(m: Seq<(Seq<u8>, Seq<u8>)>, data: Seq<u8>)
    ensures
        (match_model(m, data) is None) <==> (forall|i: int|
            0 <= i < m.len() ==> !is_prefix_of((#[trigger] m[i]).1, data)),
    decreases m.len(),
{
    if m.len() > 0 {
        lemma_match_model_none(m.drop_first(), data);
        if match_model(m, data) is None {
            assert forall|i: int| 0 <= i < m.len() implies !is_prefix_of(
                (#[trigger] m[i]).1,
                data,
            ) by {
                if i >= 1 {
                    assert(m.drop_first()[i - 1] == m[i]);
                }
            }
        } else {
            if !is_prefix_of(m[0].1, data) {
                let w = choose|i: int|
                    0 <= i < m.drop_first().len() && is_prefix_of(
                        (#[trigger] m.drop_first()[i]).1,
                        data,
                    );
                assert(m[w + 1] == m.drop_first()[w]);
            }
        }
    }
}

/// The first matching entry decides `match_model`: a pattern at `i` that
/// prefixes the data, below which nothing matches, makes its identifier the
/// result.
pub proof fn lemma_match_model_hit(m: Seq<(Seq<u8>, Seq<u8>)>, data: Seq<u8>, i: int)
    requires
        0 <= i < m.len(),
        is_prefix_of(m[i].1, data),
        forall|j: int| 0 <= j < i ==> !is_prefix_of((#[trigger] m[j]).1, data),
    ensures
        match_model(m, data) == Some(m[i].0),
    decreases m.len(),
{
    if i > 0 {
        assert forall|j: int| 0 <= j < i - 1 implies !is_prefix_of(
            (#[trigger] m.drop_first()[j]).1,
            data,
        ) by {
            assert(m.drop_first()[j] == m[j + 1]);
        }
        assert(m.drop_first()[i - 1] == m[i]);
        lemma_match_model_hit(m.drop_first(), data, i - 1);
    }
}

/// Each entry line puts its identifier in the store, and the pattern stored
/// under an identifier is the one of its last entry line.
pub proof fn lemma_load_model_entry(lines: Seq<Seq<u8>>, i: int)
    requires
        0 <= i < lines.len(),
        is_entry_line(lines[i]),
        forall|j: int|
            i < j < lines.len() && is_entry_line(#[trigger] lines[j]) ==> line_id(lines[j])
                != line_id(lines[i]),
    ensures
        has_key(load_model(lines), line_id(lines[i])),
        map_val(load_model(lines), line_id(lines[i])) == spec_hex_decode(line_hex(lines[i])),
    decreases lines.len(),
{
    let l = lines.last();
    let prev = load_model(lines.drop_last());
    if i == lines.len() - 1 {
        lemma_map_insert_lookup(prev, line_id(l), spec_hex_decode(line_hex(l)));
    } else {
        assert(lines.drop_last()[i] == lines[i]);
        assert forall|j: int|
            i < j < lines.drop_last().len() && is_entry_line(
                #[trigger] lines.drop_last()[j],
            ) implies line_id(lines.drop_last()[j]) != line_id(lines.drop_last()[i]) by {
            assert(lines.drop_last()[j] == lines[j]);
        }
        lemma_load_model_entry(lines.drop_last(), i);
        if is_entry_line(l) {
            assert(line_id(l) != line_id(lines[i]));
            lemma_map_insert_other(
                prev,
                line_id(l),
                spec_hex_decode(line_hex(l)),
                line_id(lines[i]),
            );
        }
    }
}

/// A loaded database holds exactly one entry per identifier. For an
/// identifier written on exactly one entry line, that entry holds the line's
/// decoded pattern, and a file beginning with that pattern — with no
/// earlier-stored signature also matching — is identified as that signature.
pub proof fn lemma_load_then_match(lines: Seq<Seq<u8>>, i: int, data: Seq<u8>)
    requires
        0 <= i < lines.len(),
        is_entry_line(lines[i]),
        forall|j: int|
            0 <= j < lines.len() && j != i && is_entry_line(#[trigger] lines[j]) ==> line_id(
                lines[j],
            ) != line_id(lines[i]),
        is_prefix_of(spec_hex_decode(line_hex(lines[i])), data),
        forall|k: int|
            0 <= k < key_index(load_model(lines), line_id(lines[i])) ==> !is_prefix_of(
                (#[trigger] load_model(lines)[k]).1,
                data,
            ),
    ensures
        unique_keys(load_model(lines)),
        has_key(load_model(lines), line_id(lines[i])),
        map_val(load_model(lines), line_id(lines[i])) == spec_hex_decode(line_hex(lines[i])),
        match_model(load_model(lines), data) == Some(line_id(lines[i])),
{
    let m = load_model(lines);
    let id = line_id(lines[i]);
    lemma_load_model_wf(lines);
    lemma_load_model_entry(lines, i);
    lemma_key_index(m, id);
    lemma_match_model_hit(m, data, key_index(m, id));
}

/// Every store that `load_model` builds has unique identifiers and non-empty
/// patterns.
pub proof fn lemma_load_model_wf(lines: Seq<Seq<u8>>)
    ensures
        unique_keys(load_model(lines)),
        forall|i: int|
            0 <= i < load_model(lines).len() ==> (#[trigger] load_model(lines)[i]).1.len() > 0,
    decreases lines.len(),
{
    if lines.len() > 0 {
        lemma_load_model_wf(lines.drop_last());
        let prev = load_model(lines.drop_last());
        let l = lines.last();
        if is_entry_line(l) {
            crate::hexcode::lemma_hex_decode_len(line_hex(l));
            lemma_map_insert_unique(prev, line_id(l), spec_hex_decode(line_hex(l)));
            lemma_key_index(prev, line_id(l));
        }
    }
}

} // verus!
