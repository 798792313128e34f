//! The weights in a file, grouped by the model that they belong to.
//!
//! A file holds the tensors of one or more models. The name of each tensor begins with the
//! signature of its model and a dot.
use vstd::prelude::*;
use crate::error::DemucsError;
use crate::file_header;
use crate::ops_cpu::layout;
use crate::raw_tensor;
use crate::raw_tensor::Dtype;
use crate::raw_tensor::RawTensor;
use crate::raw_tensor::RawTensorView;
use crate::text;

verus! {

/// A tensor as it stands in a file: the name of its encoding, its shape and its bytes.
pub struct FileTensor {
    pub dtype: String,
    pub shape: Vec<usize>,
    pub data: Vec<u8>,
}

/// The contents of a tensor in a file.
pub struct FileTensorView {
    pub dtype: Seq<char>,
    pub shape: Seq<usize>,
    pub data: Seq<u8>,
}

impl View for FileTensor {
    type V = FileTensorView;

    open spec fn view(&self) -> FileTensorView {
        FileTensorView { dtype: self.dtype@, shape: self.shape@, data: self.data@ }
    }
}

/// What `safetensors::SafeTensors::deserialize` finds in the bytes of a file: for each name
/// the tensor under it, or nothing where the bytes are no such file.
pub uninterp spec fn file_tensors(bytes: Seq<u8>) -> Option<Map<Seq<char>, FileTensorView>>;

/// `v` lists the contents of `m`, each name once.
pub open spec fn lists(v: Seq<(String, FileTensor)>, m: Map<Seq<char>, FileTensorView>) -> bool {
    &&& forall|i: int, j: int| 0 <= i < j < v.len() ==> (#[trigger] v[i]).0@ != (#[trigger] v[j]).0@
    &&& forall|i: int|
        0 <= i < v.len() ==> m.contains_key((#[trigger] v[i]).0@) && m[v[i].0@] == v[i].1@
    &&& forall|k: Seq<char>| #[trigger]
        m.contains_key(k) ==> exists|i: int| 0 <= i < v.len() && (#[trigger] v[i]).0@ == k
}

/// Reads the tensors of a file with `safetensors::SafeTensors::deserialize` and
/// `SafeTensors::tensors`. An encoding comes by the name that its variant of
/// `safetensors::Dtype` has.
///
/// Taken on trust: whether this succeeds, and which tensors there are under which names,
/// depends on the bytes alone; the tensors come in no particular order, each name once. The
/// text of an error is left open. `deserialize` adds the end of the last tensor to the length of
/// the header without a check, so no offset may be too large for that.
#[verifier::external_body]
fn read_file(bytes: &[u8]) -> (r: Result<Vec<(String, FileTensor)>, String>)
    requires
        !file_header::has_huge_offset(bytes@),
    ensures
        match r {
            Ok(v) => file_tensors(bytes@) is Some && lists(v@, file_tensors(bytes@)->0),
            Err(_) => file_tensors(bytes@) is None,
        },
{
    let file = safetensors::SafeTensors::deserialize(bytes).map_err(|e| e.to_string())?;
    let convert = |(name, t): (String, safetensors::tensor::TensorView)| {
        let dtype = format!("{:?}", t.dtype());
        (name, FileTensor { dtype, shape: t.shape().to_vec(), data: t.data().to_vec() })
    };
    Ok(file.tensors().into_iter().map(convert).collect())
}

/// The tensor that stands in a file as `t`.
pub open spec fn raw(t: FileTensorView) -> RawTensorView {
    RawTensorView { data: t.data, shape: t.shape, dtype: raw_tensor::dtype_named(t.dtype) }
}

/// Finds out how each tensor is encoded.
fn recognized(tensors: &Vec<(String, FileTensor)>) -> (r: Vec<(String, RawTensor)>)
    ensures
        r@.len() == tensors@.len(),
        forall|i: int|
            0 <= i < r@.len() ==> (#[trigger] r@[i]).0@ == tensors@[i].0@ && r@[i].1@ == raw(
                tensors@[i].1@,
            ),
{
    let n: usize = tensors.len();
    let mut out: Vec<(String, RawTensor)> = Vec::new();
    let mut i: usize = 0;
    while i < n
        invariant
            i <= n,
            n == tensors@.len(),
            out@.len() == i,
            forall|j: int|
                0 <= j < i ==> (#[trigger] out@[j]).0@ == tensors@[j].0@ && out@[j].1@ == raw(
                    tensors@[j].1@,
                ),
        decreases n - i,
    {
        let t: &FileTensor = &tensors[i].1;
        let dtype: Dtype = Dtype::named(t.dtype.as_str());
        let data: Vec<u8> = layout::to_vec(&t.data);
        let shape: Vec<usize> = layout::to_vec(&t.shape);
        out.push((tensors[i].0.clone(), RawTensor { data, shape, dtype }));
        i = i + 1;
    }
    out
}

/// The name of the tensor `key` of the model `sig`.
pub open spec fn full_name(sig: Seq<char>, key: Seq<char>) -> Seq<char> {
    sig + "."@ + key
}

/// Splits a name at its first dot.
fn split_name(name: &str) -> (r: Option<(String, String)>)
    ensures
        match r {
            Some((sig, key)) => name@ == full_name(sig@, key@) && !sig@.contains('.'),
            None => !name@.contains('.'),
        },
{
    let n: usize = name.unicode_len();
    let mut i: usize = 0;
    while i < n
        invariant
            i <= n,
            n == name@.len(),
            forall|j: int| 0 <= j < i ==> name@[j] != '.',
        decreases n - i,
    {
        if name.get_char(i) == '.' {
            let sig: String = name.substring_char(0, i).to_owned();
            let key: String = name.substring_char(i + 1, n).to_owned();
            proof {
                reveal_strlit(".");
                assert(name@ =~= sig@ + "."@ + key@);
            }
            return Some((sig, key));
        }
        i = i + 1;
    }
    None
}

/// A name determines the signature and the rest.
pub proof fn name_splits_once(s1: Seq<char>, k1: Seq<char>, s2: Seq<char>, k2: Seq<char>)
    requires
        full_name(s1, k1) == full_name(s2, k2),
        !s1.contains('.'),
        !s2.contains('.'),
    ensures
        s1 == s2,
        k1 == k2,
{
    reveal_strlit(".");
    let f = full_name(s1, k1);
    if s1.len() < s2.len() {
        assert(f[s1.len() as int] == '.');
        assert(f[s1.len() as int] == s2[s1.len() as int]);
        assert(s2.contains('.'));
    }
    if s2.len() < s1.len() {
        assert(full_name(s2, k2)[s2.len() as int] == '.');
        assert(f[s2.len() as int] == s1[s2.len() as int]);
        assert(s1.contains('.'));
    }
    assert(s1 =~= f.subrange(0, s1.len() as int));
    assert(s2 =~= f.subrange(0, s2.len() as int));
    assert(k1 =~= f.subrange(s1.len() as int + 1, f.len() as int));
    assert(k2 =~= f.subrange(s2.len() as int + 1, f.len() as int));
}

/// One tensor of one model.
pub struct StoredTensor {
    pub sig: String,
    pub key: String,
    pub tensor: RawTensor,
}

/// The tensors by signature and key. Where a pair occurs more than once, the last counts.
pub open spec fn contents(entries: Seq<StoredTensor>) -> Map<(Seq<char>, Seq<char>), RawTensorView>
    decreases entries.len(),
{
    if entries.len() == 0 {
        Map::empty()
    } else {
        let e = entries.last();
        contents(entries.drop_last()).insert((e.sig@, e.key@), e.tensor@)
    }
}

/// All tensors of a file, by the signature of their model and their name within it.
pub struct WeightStore {
    pub entries: Vec<StoredTensor>,
}

impl View for WeightStore {
    type V = Map<(Seq<char>, Seq<char>), RawTensorView>;

    open spec fn view(&self) -> Map<(Seq<char>, Seq<char>), RawTensorView> {
        contents(self.entries@)
    }
}

/// There is a tensor under the signature `sig`.
pub open spec fn has_signature(
    m: Map<(Seq<char>, Seq<char>), RawTensorView>,
    sig: Seq<char>,
) -> bool {
    exists|k: Seq<char>| #[trigger] m.contains_key((sig, k))
}

/// The store of the named tensors `v`: each under the part of its name before the first dot
/// and the part after it; those whose name has no dot are left out.
pub open spec fn grouped(v: Seq<(Seq<char>, RawTensorView)>, m: Map<
    (Seq<char>, Seq<char>),
    RawTensorView,
>) -> bool {
    &&& forall|sig: Seq<char>, key: Seq<char>| #[trigger]
        m.contains_key((sig, key)) ==> !sig.contains('.') && exists|i: int|
            0 <= i < v.len() && (#[trigger] v[i]).0 == full_name(sig, key) && v[i].1 == m[(
                sig,
                key,
            )]
    &&& forall|i: int, sig: Seq<char>, key: Seq<char>|
        0 <= i < v.len() && (#[trigger] v[i]).0 == #[trigger] full_name(sig, key) && !sig.contains(
            '.',
        ) ==> m.contains_key((sig, key))
}

/// The names and contents of a list of tensors.
pub open spec fn named(v: Seq<(String, RawTensor)>) -> Seq<(Seq<char>, RawTensorView)> {
    Seq::new(v.len(), |i: int| (v[i].0@, v[i].1@))
}

/// The text of the error for a tensor that is not there.
pub open spec fn missing_text(sig: Seq<char>, key: Seq<char>) -> Seq<char> {
    "missing weight: "@ + full_name(sig, key)
}

/// An entry under `sig` exists exactly if the store has the signature.
proof fn lemma_signature(entries: Seq<StoredTensor>, sig: Seq<char>)
    ensures
        has_signature(contents(entries), sig) <==> exists|i: int|
            0 <= i < entries.len() && (#[trigger] entries[i]).sig@ == sig,
    decreases entries.len(),
{
    if entries.len() > 0 {
        let rest = entries.drop_last();
        let e = entries.last();
        lemma_signature(rest, sig);
        let m = contents(entries);
        let r = contents(rest);
        if has_signature(m, sig) {
            let k = choose|k: Seq<char>| #[trigger] m.contains_key((sig, k));
            if e.sig@ == sig {
                assert(entries[entries.len() - 1].sig@ == sig);
            } else {
                assert(r.contains_key((sig, k)));
                let i = choose|i: int| 0 <= i < rest.len() && (#[trigger] rest[i]).sig@ == sig;
                assert(entries[i].sig@ == sig);
            }
        }
        if exists|i: int| 0 <= i < entries.len() && (#[trigger] entries[i]).sig@ == sig {
            let i = choose|i: int| 0 <= i < entries.len() && (#[trigger] entries[i]).sig@ == sig;
            if i < rest.len() {
                assert(rest[i].sig@ == sig);
                let k = choose|k: Seq<char>| #[trigger] r.contains_key((sig, k));
                assert(m.contains_key((sig, k)));
            } else {
                assert(m.contains_key((sig, e.key@)));
            }
        }
    }
}

/// `m` holds the tensors of the file with these bytes, each under the signature and the key
/// that its name consists of; those with no dot in their name are left out.
pub open spec fn is_store_of(
    bytes: Seq<u8>,
    m: Map<(Seq<char>, Seq<char>), RawTensorView>,
) -> bool {
    &&& !file_header::has_huge_offset(bytes)
    &&& file_tensors(bytes) is Some
    &&& forall|sig: Seq<char>, key: Seq<char>| #[trigger]
        m.contains_key((sig, key)) <==> !sig.contains('.') && file_tensors(bytes)->0.contains_key(
            full_name(sig, key),
        )
    &&& forall|sig: Seq<char>, key: Seq<char>| #[trigger]
        m.contains_key((sig, key)) ==> m[(sig, key)] == raw(
            file_tensors(bytes)->0[full_name(sig, key)],
        )
}

/// The bytes of a file determine the weights that are read from it.
pub proof fn bytes_determine_weights(
    bytes: Seq<u8>,
    m: Map<(Seq<char>, Seq<char>), RawTensorView>,
    n: Map<(Seq<char>, Seq<char>), RawTensorView>,
)
    requires
        is_store_of(bytes, m),
        is_store_of(bytes, n),
    ensures
        m == n,
{
    assert forall|p: (Seq<char>, Seq<char>)| #[trigger] m.contains_key(p) == n.contains_key(p) by {
        assert(m.contains_key((p.0, p.1)) == n.contains_key((p.0, p.1)));
    }
    assert forall|p: (Seq<char>, Seq<char>)| m.contains_key(p) implies #[trigger] m[p] == n[p] by {
        assert(m.contains_key((p.0, p.1)) && n.contains_key((p.0, p.1)));
    }
    assert(m =~= n);
}

/// `e` says that the bytes are no file of tensors, or that an offset of a tensor lies beyond
/// what a machine word can hold.
pub open spec fn is_no_store(bytes: Seq<u8>, e: DemucsError) -> bool {
    &&& file_header::has_huge_offset(bytes) || file_tensors(bytes) is None
    &&& e is Weight
    &&& "safetensors: "@.is_prefix_of(e->Weight_0@)
}

impl WeightStore {
    /// Groups named tensors by signature.
    pub fn from_tensors(tensors: Vec<(String, RawTensor)>) -> (r: WeightStore)
        requires
            forall|i: int, j: int|
                0 <= i < j < tensors@.len() ==> (#[trigger] tensors@[i]).0@ != (
                #[trigger] tensors@[j]).0@,
        ensures
            grouped(named(tensors@), r@),
    {
        let ghost v = named(tensors@);
        let n: usize = tensors.len();
        let mut entries: Vec<StoredTensor> = Vec::new();
        let mut i: usize = 0;
        while i < n
            invariant
                i <= n,
                n == tensors@.len(),
                v == named(tensors@),
                forall|i: int, j: int|
                    0 <= i < j < tensors@.len() ==> (#[trigger] tensors@[i]).0@ != (
                    #[trigger] tensors@[j]).0@,
                grouped(v.take(i as int), contents(entries@)),
            decreases n - i,
        {
            let ghost before = contents(entries@);
            let ghost vi = v.take(i as int);
            let ghost vn = v.take(i + 1);
            proof {
                assert(vn =~= vi.push(v[i as int]));
            }
            match split_name(tensors[i].0.as_str()) {
                Some((sig, key)) => {
                    let ghost pair = (sig@, key@);
                    let ghost old_entries = entries@;
                    entries.push(StoredTensor { sig, key, tensor: tensors[i].1.clone() });
                    proof {
                        assert(entries@.drop_last() =~= old_entries);
                        let m = contents(entries@);
                        assert(m == before.insert(pair, v[i as int].1));
                        assert forall|s: Seq<char>, k: Seq<char>| #[trigger]
                            m.contains_key((s, k)) implies !s.contains('.') && exists|j: int|
                            0 <= j < vn.len() && (#[trigger] vn[j]).0 == full_name(s, k) && vn[j].1
                                == m[(s, k)] by {
                            if (s, k) == pair {
                                assert(vn[i as int].0 == full_name(s, k));
                            } else {
                                assert(before.contains_key((s, k)));
                                let j = choose|j: int|
                                    0 <= j < vi.len() && (#[trigger] vi[j]).0 == full_name(s, k)
                                        && vi[j].1 == before[(s, k)];
                                assert(vn[j] == vi[j]);
                            }
                        }
                        assert forall|j: int, s: Seq<char>, k: Seq<char>|
                            0 <= j < vn.len() && (#[trigger] vn[j]).0 == #[trigger] full_name(s, k)
                                && !s.contains('.') implies m.contains_key((s, k)) by {
                            if j < i {
                                assert(vi[j] == vn[j]);
                                assert(before.contains_key((s, k)));
                            } else {
                                name_splits_once(s, k, pair.0, pair.1);
                            }
                        }
                    }
                },
                None => {
                    proof {
                        let m = before;
                        assert forall|s: Seq<char>, k: Seq<char>| #[trigger]
                            m.contains_key((s, k)) implies !s.contains('.') && exists|j: int|
                            0 <= j < vn.len() && (#[trigger] vn[j]).0 == full_name(s, k) && vn[j].1
                                == m[(s, k)] by {
                            let j = choose|j: int|
                                0 <= j < vi.len() && (#[trigger] vi[j]).0 == full_name(s, k)
                                    && vi[j].1 == before[(s, k)];
                            assert(vn[j] == vi[j]);
                        }
                        assert forall|j: int, s: Seq<char>, k: Seq<char>|
                            0 <= j < vn.len() && (#[trigger] vn[j]).0 == #[trigger] full_name(s, k)
                                && !s.contains('.') implies m.contains_key((s, k)) by {
                            if j < i {
                                assert(vi[j] == vn[j]);
                            } else {
                                reveal_strlit(".");
                                assert(full_name(s, k)[s.len() as int] == '.');
                                assert(vn[j].0.contains('.'));
                            }
                        }
                    }
                },
            }
            i = i + 1;
        }
        proof {
            assert(v.take(n as int) =~= v);
        }
        WeightStore { entries }
    }

    /// Reads the weights from the bytes of a file.
    pub fn from_bytes(buf: &[u8]) -> (r: Result<WeightStore, DemucsError>)
        ensures
            match r {
                Ok(s) => is_store_of(buf@, s@),
                Err(e) => is_no_store(buf@, e),
            },
    {
        if file_header::holds_huge_offset(buf) {
            let msg: String = text::join("safetensors: ", "MetadataIncompleteBuffer");
            return Err(DemucsError::Weight(msg));
        }
        match read_file(buf) {
            Ok(listed) => {
                let v: Vec<(String, RawTensor)> = recognized(&listed);
                let ghost m = file_tensors(buf@)->0;
                let ghost t = named(v@);
                proof {
                    assert forall|i: int, j: int| 0 <= i < j < v@.len() implies (
                    #[trigger] v@[i]).0@ != (#[trigger] v@[j]).0@ by {
                        assert(listed@[i].0@ != listed@[j].0@);
                    }
                }
                let s: WeightStore = WeightStore::from_tensors(v);
                proof {
                    assert forall|sig: Seq<char>, key: Seq<char>| #[trigger]
                        s@.contains_key((sig, key)) <==> !sig.contains('.') && m.contains_key(
                            full_name(sig, key),
                        ) by {
                        if s@.contains_key((sig, key)) {
                            let i = choose|i: int|
                                0 <= i < t.len() && (#[trigger] t[i]).0 == full_name(sig, key)
                                    && t[i].1 == s@[(sig, key)];
                            assert(listed@[i].0@ == full_name(sig, key));
                        }
                        if !sig.contains('.') && m.contains_key(full_name(sig, key)) {
                            let i = choose|i: int|
                                0 <= i < listed@.len() && (#[trigger] listed@[i]).0@ == full_name(
                                    sig,
                                    key,
                                );
                            assert(v@[i].0@ == listed@[i].0@);
                            assert(t[i].0 == full_name(sig, key));
                        }
                    }
                    assert forall|sig: Seq<char>, key: Seq<char>| #[trigger]
                        s@.contains_key((sig, key)) implies s@[(sig, key)] == raw(
                        m[full_name(sig, key)],
                    ) by {
                        let i = choose|i: int|
                            0 <= i < t.len() && (#[trigger] t[i]).0 == full_name(sig, key)
                                && t[i].1 == s@[(sig, key)];
                        assert(v@[i].0@ == full_name(sig, key));
                        assert(listed@[i].0@ == full_name(sig, key));
                    }
                }
                Ok(s)
            },
            Err(e) => {
                let msg: String = text::join("safetensors: ", e.as_str());
                Err(DemucsError::Weight(msg))
            },
        }
    }

    /// Finds a tensor.
    fn find(&self, sig: &str, key: &str) -> (r: Option<usize>)
        ensures
            match r {
                Some(i) => {
                    &&& i < self.entries@.len()
                    &&& self@.contains_key((sig@, key@))
                    &&& self@[(sig@, key@)] == self.entries@[i as int].tensor@
                },
                None => !self@.contains_key((sig@, key@)),
            },
    {
        let s: String = sig.to_owned();
        let k: String = key.to_owned();
        let n: usize = self.entries.len();
        let mut i: usize = n;
        proof {
            assert(self.entries@.take(n as int) =~= self.entries@);
        }
        while i > 0
            invariant
                i <= n,
                n == self.entries@.len(),
                s@ == sig@,
                k@ == key@,
                self@.contains_key((sig@, key@)) == contents(
                    self.entries@.take(i as int),
                ).contains_key((sig@, key@)),
                self@[(sig@, key@)] == contents(self.entries@.take(i as int))[(sig@, key@)],
            decreases i,
        {
            proof {
                let part = self.entries@.take(i as int);
                assert(part.drop_last() =~= self.entries@.take(i - 1));
                assert(part.last() == self.entries@[i - 1]);
            }
            i = i - 1;
            if self.entries[i].sig == s && self.entries[i].key == k {
                return Some(i);
            }
        }
        None
    }

    /// The tensor `key` of the model `sig`, where there is one.
    pub fn try_take(&self, sig: &str, key: &str) -> (r: Option<RawTensor>)
        ensures
            match r {
                Some(t) => self@.contains_key((sig@, key@)) && t@ == self@[(sig@, key@)],
                None => !self@.contains_key((sig@, key@)),
            },
    {
        match self.find(sig, key) {
            Some(i) => Some(self.entries[i].tensor.clone()),
            None => None,
        }
    }

    /// The tensor `key` of the model `sig`.
    pub fn take(&self, sig: &str, key: &str) -> (r: Result<RawTensor, DemucsError>)
        ensures
            match r {
                Ok(t) => self@.contains_key((sig@, key@)) && t@ == self@[(sig@, key@)],
                Err(e) => {
                    &&& !self@.contains_key((sig@, key@))
                    &&& e is Weight
                    &&& e->Weight_0@ == missing_text(sig@, key@)
                },
            },
    {
        match self.try_take(sig, key) {
            Some(t) => Ok(t),
            None => {
                let name: String = text::join3(sig, ".", key);
                let msg: String = text::join("missing weight: ", name.as_str());
                Err(DemucsError::Weight(msg))
            },
        }
    }

    /// The tensors of the model `sig`, in no particular order, where there are any.
    pub fn signature(&self, sig: &str) -> (r: Option<Vec<&StoredTensor>>)
        ensures
            match r {
                Some(v) => {
                    &&& has_signature(self@, sig@)
                    &&& forall|i: int|
                        0 <= i < v@.len() ==> (#[trigger] v@[i]).sig@ == sig@
                            && self.entries@.contains(*v@[i])
                    &&& forall|j: int|
                        0 <= j < self.entries@.len() && (#[trigger] self.entries@[j]).sig@ == sig@
                            ==> exists|i: int|
                            0 <= i < v@.len() && *(#[trigger] v@[i]) == self.entries@[j]
                },
                None => !has_signature(self@, sig@),
            },
    {
        let s: String = sig.to_owned();
        let n: usize = self.entries.len();
        let mut out: Vec<&StoredTensor> = Vec::new();
        let mut i: usize = 0;
        while i < n
            invariant
                i <= n,
                n == self.entries@.len(),
                s@ == sig@,
                forall|k: int|
                    0 <= k < out@.len() ==> (#[trigger] out@[k]).sig@ == sig@
                        && self.entries@.contains(*out@[k]),
                forall|j: int|
                    0 <= j < i && (#[trigger] self.entries@[j]).sig@ == sig@ ==> exists|k: int|
                        0 <= k < out@.len() && *(#[trigger] out@[k]) == self.entries@[j],
            decreases n - i,
        {
            if self.entries[i].sig == s {
                let ghost before = out@;
                out.push(&self.entries[i]);
                proof {
                    assert(self.entries@.contains(self.entries@[i as int]));
                    assert forall|j: int|
                        0 <= j < i + 1 && (#[trigger] self.entries@[j]).sig@ == sig@ implies exists|
                        k: int,
                    |
                        0 <= k < out@.len() && *(#[trigger] out@[k]) == self.entries@[j] by {
                        if j < i {
                            let k = choose|k: int|
                                0 <= k < before.len() && *(#[trigger] before[k])
                                    == self.entries@[j];
                            assert(out@[k] == before[k]);
                        } else {
                            assert(*out@[out@.len() - 1] == self.entries@[j]);
                        }
                    }
                }
            }
            i = i + 1;
        }
        proof {
            lemma_signature(self.entries@, sig@);
        }
        if out.len() == 0 {
            None
        } else {
            proof {
                let e = *out@[0];
                let j = choose|j: int| 0 <= j < self.entries@.len() && self.entries@[j] == e;
                assert(self.entries@[j].sig@ == sig@);
            }
            Some(out)
        }
    }

    /// The signatures of all models that there are tensors of, each once, in no particular
    /// order.
    pub fn signatures(&self) -> (r: Vec<&str>)
        ensures
            forall|i: int, j: int| 0 <= i < j < r@.len() ==> (#[trigger] r@[i])@ != (#[trigger] r@[j])@,
            forall|i: int| 0 <= i < r@.len() ==> has_signature(self@, (#[trigger] r@[i])@),
            forall|sig: Seq<char>| #[trigger]
                has_signature(self@, sig) ==> exists|i: int|
                    0 <= i < r@.len() && (#[trigger] r@[i])@ == sig,
    {
        let n: usize = self.entries.len();
        let mut out: Vec<&str> = Vec::new();
        let mut i: usize = 0;
        while i < n
            invariant
                i <= n,
                n == self.entries@.len(),
                forall|k: int, j: int|
                    0 <= k < j < out@.len() ==> (#[trigger] out@[k])@ != (#[trigger] out@[j])@,
                forall|k: int|
                    0 <= k < out@.len() ==> has_signature(self@, (#[trigger] out@[k])@),
                forall|j: int|
                    0 <= j < i ==> exists|k: int|
                        0 <= k < out@.len() && (#[trigger] out@[k])@ == (
                        #[trigger] self.entries@[j]).sig@,
            decreases n - i,
        {
            let s: &str = self.entries[i].sig.as_str();
            let known: bool = among(&out, s);
            let ghost before = out@;
            if !known {
                proof {
                    lemma_signature(self.entries@, s@);
                    assert(self.entries@[i as int].sig@ == s@);
                }
                out.push(s);
            }
            proof {
                assert forall|j: int| 0 <= j < i + 1 implies exists|k: int|
                    0 <= k < out@.len() && (#[trigger] out@[k])@ == (
                    #[trigger] self.entries@[j]).sig@ by {
                    if j < i {
                        let k = choose|k: int|
                            0 <= k < before.len() && (#[trigger] before[k])@
                                == self.entries@[j].sig@;
                        assert(out@[k] == before[k]);
                    } else if known {
                        let k = choose|k: int| 0 <= k < before.len() && (#[trigger] before[k])@ == s@;
                        assert(out@[k] == before[k]);
                    } else {
                        assert(out@[out@.len() - 1]@ == s@);
                    }
                }
            }
            i = i + 1;
        }
        proof {
            assert forall|sig: Seq<char>| #[trigger] has_signature(self@, sig) implies exists|k: int|
                0 <= k < out@.len() && (#[trigger] out@[k])@ == sig by {
                lemma_signature(self.entries@, sig);
                let j = choose|j: int|
                    0 <= j < self.entries@.len() && (#[trigger] self.entries@[j]).sig@ == sig;
                assert(self.entries@[j].sig@ == sig);
            }
        }
        out
    }
}

/// Whether `s` is among `v`.
fn among(v: &Vec<&str>, s: &str) -> (r: bool)
    ensures
        r == exists|k: int| 0 <= k < v@.len() && (#[trigger] v@[k])@ == s@,
{
    let n: usize = v.len();
    let mut i: usize = 0;
    while i < n
        invariant
            i <= n,
            n == v@.len(),
            forall|k: int| 0 <= k < i ==> (#[trigger] v@[k])@ != s@,
        decreases n - i,
    {
        if text::same(v[i], s) {
            return true;
        }
        i = i + 1;
    }
    false
}

} // verus!
