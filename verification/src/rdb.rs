//! The binary snapshot decoder used to seed the store at boot: it locates
//! the key-value section between the section marker and the end-of-file
//! marker, then reads optional eight-byte little-endian expiry records and
//! length-prefixed key and value byte strings. Any short read mid-entry is
//! a hard failure; the caller falls back to an empty store.

use vstd::prelude::*;
use vstd::bytes::{spec_u64_from_le_bytes, u64_from_le_bytes};
use crate::bytes_util::{ascii_of, copy_range, push_all, str_bytes};
use crate::options::ServerOptions;
use crate::store::{DataItem, DataStore, ItemModel, mem_set};

verus! {

/// The byte introducing the key-value section.
pub const SECTION_MARKER: u8 = 0xfe;

/// The byte ending the file.
pub const EOF_MARKER: u8 = 0xff;

/// The opcode announcing an eight-byte little-endian millisecond expiry.
pub const EXPIRY_OPCODE: u8 = 0xfc;

/// The first position at or after `i` holding `b`, or the end.
pub open spec fn find_byte(s: Seq<u8>, i: int, b: u8) -> int
    decreases s.len() - i,
{
    if i < 0 || i >= s.len() || s[i] == b {
        i
    } else {
        find_byte(s, i + 1, b)
    }
}

/// The key-value section: five bytes past the first section marker, up to
/// the first end-of-file marker. Absent markers, or an end marker too
/// close to (or before) the section marker, are a failure.
pub open spec fn kv_slice(s: Seq<u8>) -> Option<Seq<u8>> {
    let p = find_byte(s, 0, SECTION_MARKER);
    let q = find_byte(s, 0, EOF_MARKER);
    if p >= s.len() || q >= s.len() {
        None
    } else if p + 5 > q {
        None
    } else {
        Some(s.subrange(p + 5, q))
    }
}

/// Decodes the entries of the section from position `i` on, carrying the
/// pending expiry and the mapping read so far. One entry is a key length
/// (taken from the next byte when the first is zero), the key, a value
/// length, and the value; the expiry opcode instead records a pending
/// expiry for the next entry. Exhausted input ends the decode; a short
/// read anywhere inside an entry fails it.
pub open spec fn decode_entries(
    s: Seq<u8>,
    i: int,
    pending: Option<u64>,
    mem: Seq<(Seq<u8>, ItemModel)>,
) -> Option<Seq<(Seq<u8>, ItemModel)>>
    decreases s.len() - i,
{
    if i < 0 {
        None
    } else if i >= s.len() {
        Some(mem)
    } else if s[i] == EXPIRY_OPCODE {
        if i + 9 <= s.len() {
            decode_entries(s, i + 9, Some(spec_u64_from_le_bytes(s.subrange(i + 1, i + 9))), mem)
        } else {
            None
        }
    } else {
        let kl = if s[i] != 0 {
            (s[i] as int, i + 1)
        } else if i + 1 < s.len() {
            (s[i + 1] as int, i + 2)
        } else {
            (-1, i + 2)
        };
        let klen = kl.0;
        let j = kl.1;
        if klen < 0 {
            None
        } else if j + klen + 1 > s.len() {
            None
        } else {
            let key = s.subrange(j, j + klen);
            let vlen = s[j + klen] as int;
            if j + klen + 1 + vlen > s.len() {
                None
            } else {
                let value = s.subrange(j + klen + 1, j + klen + 1 + vlen);
                decode_entries(
                    s,
                    j + klen + 1 + vlen,
                    None,
                    mem_set(mem, key, ItemModel { data: value, expiry: pending }),
                )
            }
        }
    }
}

proof fn lemma_find_byte_exact(s: Seq<u8>, i: int, e: int, b: u8)
    requires
        0 <= i <= e <= s.len(),
        forall|j: int| i <= j < e ==> s[j] != b,
        e == s.len() || s[e] == b,
    ensures
        find_byte(s, i, b) == e,
    decreases e - i,
{
    if i < e {
        lemma_find_byte_exact(s, i + 1, e, b);
    }
}

/// Snapshot decoding is deterministic: two decodes of the same
/// well-formed byte sequence yield identical key/value/expiry mappings.
pub proof fn lemma_decode_deterministic(
    s: Seq<u8>,
    m1: Seq<(Seq<u8>, ItemModel)>,
    m2: Seq<(Seq<u8>, ItemModel)>,
)
    requires
        decode_entries(s, 0, None, Seq::empty()) == Some(m1),
        decode_entries(s, 0, None, Seq::empty()) == Some(m2),
    ensures
        m1 == m2,
{
}

/// Finds and decodes the persisted snapshot's key-value section.
pub struct RDBFileHelper {
    pub file_path: Option<Vec<u8>>,
}

impl RDBFileHelper {
    /// The snapshot's path: the configured directory, a separator, and
    /// the configured file name; none when either is unconfigured.
    pub fn new(server_configuration: ServerOptions) -> (r: RDBFileHelper)
        ensures
            ({
                let m = server_configuration@;
                match (m.dir, m.file) {
                    (Some(d), Some(f)) => r.file_path matches Some(p) && p@ == d + ascii_of("/"@)
                        + f,
                    _ => r.file_path is None,
                }
            }),
    {
        match server_configuration.rdb_dir_name {
            Some(d) => match server_configuration.rdb_file_name {
                Some(f) => {
                    proof {
                        reveal_strlit("/");
                    }
                    let mut p = d;
                    let sep = str_bytes("/");
                    push_all(&mut p, &sep);
                    push_all(&mut p, &f);
                    RDBFileHelper { file_path: Some(p) }
                },
                None => RDBFileHelper { file_path: None },
            },
            None => RDBFileHelper { file_path: None },
        }
    }

    /// Cuts the key-value section out of the file bytes, exactly as
    /// `kv_slice` says.
    pub fn get_kv_table(&self, content: &Vec<u8>) -> (r: Result<Vec<u8>, ()>)
        ensures
            match r {
                Ok(v) => kv_slice(content@) == Some(v@),
                Err(_) => kv_slice(content@) is None,
            },
    {
        let len = content.len();
        let mut p: usize = 0;
        while p < len && content[p] != SECTION_MARKER
            invariant
                p <= len,
                len == content@.len(),
                forall|j: int| 0 <= j < p ==> content@[j] != SECTION_MARKER,
            decreases len - p,
        {
            p = p + 1;
        }
        proof {
            lemma_find_byte_exact(content@, 0, p as int, SECTION_MARKER);
        }
        if p >= len {
            return Err(());
        }
        let mut q: usize = 0;
        while q < len && content[q] != EOF_MARKER
            invariant
                q <= len,
                len == content@.len(),
                forall|j: int| 0 <= j < q ==> content@[j] != EOF_MARKER,
            decreases len - q,
        {
            q = q + 1;
        }
        proof {
            lemma_find_byte_exact(content@, 0, q as int, EOF_MARKER);
        }
        if q >= len {
            return Err(());
        }
        if q < 5 || p > q - 5 {
            return Err(());
        }
        Ok(copy_range(content, p + 5, q))
    }

    /// Decodes the key-value section into a store, exactly as `kv_slice`
    /// and `decode_entries` say.
    pub fn decode_kv_table(&self, content: &Vec<u8>) -> (r: Result<DataStore, ()>)
        ensures
            match r {
                Ok(store) => store.wf() && (match kv_slice(content@) {
                    Some(sl) => decode_entries(sl, 0, None, Seq::empty()) == Some(store@),
                    None => false,
                }),
                Err(_) => (match kv_slice(content@) {
                    Some(sl) => decode_entries(sl, 0, None, Seq::empty()) is None,
                    None => true,
                }),
            },
    {
        let kv = match self.get_kv_table(content) {
            Ok(v) => v,
            Err(_) => {
                return Err(());
            },
        };
        let ghost gs = kv@;
        let mut store = DataStore::new();
        let mut pending: Option<u64> = None;
        let mut i: usize = 0;
        proof {
            assert(store@ =~= Seq::<(Seq<u8>, ItemModel)>::empty());
        }
        while i < kv.len()
            invariant
                i <= gs.len(),
                gs == kv@,
                kv_slice(content@) == Some(gs),
                store.wf(),
                decode_entries(gs, 0, None, Seq::empty()) == decode_entries(
                    gs,
                    i as int,
                    pending,
                    store@,
                ),
            decreases kv@.len() - i,
        {
            let b = kv[i];
            if b == EXPIRY_OPCODE {
                if kv.len() - i < 9 {
                    return Err(());
                }
                let e = u64_from_le_bytes(
                    vstd::slice::slice_subrange(kv.as_slice(), i + 1, i + 9),
                );
                pending = Some(e);
                i = i + 9;
            } else {
                let mut klen: usize = 0;
                let mut j: usize = 0;
                if b != 0 {
                    klen = b as usize;
                    j = i + 1;
                } else {
                    if i + 1 >= kv.len() {
                        return Err(());
                    }
                    klen = kv[i + 1] as usize;
                    j = i + 2;
                }
                if kv.len() - j < klen + 1 {
                    return Err(());
                }
                let key = copy_range(&kv, j, j + klen);
                let vlen = kv[j + klen] as usize;
                if kv.len() - (j + klen + 1) < vlen {
                    return Err(());
                }
                let value = copy_range(&kv, j + klen + 1, j + klen + 1 + vlen);
                store.set(key, DataItem { data: value, expiry: pending });
                pending = None;
                i = j + klen + 1 + vlen;
            }
        }
        Ok(store)
    }
}

} // verus!
