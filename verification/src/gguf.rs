//! GGUF model files: the header, the metadata and what follows from them.
use crate::json;
use crate::matching;
use crate::measure::{widen, Real};
use crate::path;
use crate::record::Duplicate;
use crate::text;
use crate::time::Timestamp;
use vstd::prelude::*;

verus! {

// ---------------------------------------------------------------------------
// Types

#[derive(Clone, Copy, Debug, PartialEq, Eq, Structural)]
pub enum ModelKind {
    Dense,
    Moe,
    Unknown,
}

/// A metadata value. Arrays are skipped and have no value.
#[derive(Debug, PartialEq)]
pub enum GgufValue {
    String(String),
    Bool(bool),
    U64(u64),
    I64(i64),
    F64(Real),
}

/// A metadata value, by what it holds.
pub enum ValueView {
    Text(Seq<char>),
    Bool(bool),
    U64(u64),
    I64(i64),
    F64(Real),
}

impl View for GgufValue {
    type V = ValueView;

    open spec fn view(&self) -> ValueView {
        match *self {
            GgufValue::String(s) => ValueView::Text(s@),
            GgufValue::Bool(b) => ValueView::Bool(b),
            GgufValue::U64(n) => ValueView::U64(n),
            GgufValue::I64(n) => ValueView::I64(n),
            GgufValue::F64(x) => ValueView::F64(x),
        }
    }
}

/// Metadata by key, in the order of the keys.
#[derive(Debug, PartialEq)]
pub struct MetadataMap {
    pub entries: Vec<(String, GgufValue)>,
}

/// Why a file was not read.
#[derive(Clone, Copy, Debug, PartialEq, Eq, Structural)]
pub enum GgufError {
    /// The file ends before what is read.
    UnexpectedEnd,
    /// The file does not start with the GGUF magic.
    InvalidMagic,
    /// A value has a type that is not known.
    UnsupportedValueType(u32),
    /// An array has elements of a type that is not known.
    UnsupportedElementType(u32),
    /// The size of an array in bytes does not fit 64 bits.
    ArraySizeOverflow,
    /// A skip is longer than a file offset can tell.
    SkipTooLarge,
    /// A skip leads past the last file offset.
    SeekOverflow,
    /// A string is not UTF-8.
    NotUtf8,
}

/// What is said of a file that was not read.
pub open spec fn error_text(e: GgufError) -> Seq<char> {
    match e {
        GgufError::UnexpectedEnd => "failed to fill whole buffer"@,
        GgufError::InvalidMagic => "invalid GGUF magic"@,
        GgufError::UnsupportedValueType(n) => "unsupported GGUF value type "@ + text::decimal(
            n as nat,
        ),
        GgufError::UnsupportedElementType(n) => "unsupported GGUF array element type "@
            + text::decimal(n as nat),
        GgufError::ArraySizeOverflow => "array size overflow"@,
        GgufError::SkipTooLarge => "skip offset too large"@,
        GgufError::SeekOverflow => "invalid seek to a negative or overflowing position"@,
        GgufError::NotUtf8 => "GGUF string is not UTF-8"@,
    }
}

impl GgufError {
    /// What is said of a file that was not read.
    pub fn message(self) -> (r: String)
        ensures
            r@ == error_text(self),
    {
        match self {
            GgufError::UnexpectedEnd => "failed to fill whole buffer".to_string(),
            GgufError::InvalidMagic => "invalid GGUF magic".to_string(),
            GgufError::UnsupportedValueType(n) => {
                let mut r = "unsupported GGUF value type ".to_string();
                r.append(text::number(n as u64).as_str());
                r
            },
            GgufError::UnsupportedElementType(n) => {
                let mut r = "unsupported GGUF array element type ".to_string();
                r.append(text::number(n as u64).as_str());
                r
            },
            GgufError::ArraySizeOverflow => "array size overflow".to_string(),
            GgufError::SkipTooLarge => "skip offset too large".to_string(),
            GgufError::SeekOverflow => "invalid seek to a negative or overflowing position".to_string(),
            GgufError::NotUtf8 => "GGUF string is not UTF-8".to_string(),
        }
    }
}

/// A model file, as its head describes it.
#[derive(Debug, PartialEq)]
pub struct GgufMetadata {
    pub path: String,
    pub file_name: String,
    pub file_size_bytes: u64,
    pub gguf_version: u32,
    pub tensor_count: u64,
    pub metadata_kv_count: u64,
    pub name: Option<String>,
    pub architecture: Option<String>,
    pub size_label: Option<String>,
    pub native_context: Option<u64>,
    pub block_count: Option<u64>,
    pub expert_count: Option<u64>,
    pub expert_used_count: Option<u64>,
    pub tokenizer_has_chat_template: bool,
    pub quant: Option<String>,
    pub file_type: Option<u64>,
    pub model_kind: ModelKind,
    pub metadata: MetadataMap,
}

/// What the description of a model file holds.
#[verifier::ext_equal]
pub struct MetadataView {
    pub path: Seq<char>,
    pub file_name: Seq<char>,
    pub file_size_bytes: u64,
    pub gguf_version: u32,
    pub tensor_count: u64,
    pub metadata_kv_count: u64,
    pub name: Option<Seq<char>>,
    pub architecture: Option<Seq<char>>,
    pub size_label: Option<Seq<char>>,
    pub native_context: Option<u64>,
    pub block_count: Option<u64>,
    pub expert_count: Option<u64>,
    pub expert_used_count: Option<u64>,
    pub tokenizer_has_chat_template: bool,
    pub quant: Option<Seq<char>>,
    pub file_type: Option<u64>,
    pub model_kind: ModelKind,
    pub metadata: Map<Seq<char>, ValueView>,
}

impl View for GgufMetadata {
    type V = MetadataView;

    open spec fn view(&self) -> MetadataView {
        MetadataView {
            path: self.path@,
            file_name: self.file_name@,
            file_size_bytes: self.file_size_bytes,
            gguf_version: self.gguf_version,
            tensor_count: self.tensor_count,
            metadata_kv_count: self.metadata_kv_count,
            name: text::opt_text(self.name),
            architecture: text::opt_text(self.architecture),
            size_label: text::opt_text(self.size_label),
            native_context: self.native_context,
            block_count: self.block_count,
            expert_count: self.expert_count,
            expert_used_count: self.expert_used_count,
            tokenizer_has_chat_template: self.tokenizer_has_chat_template,
            quant: text::opt_text(self.quant),
            file_type: self.file_type,
            model_kind: self.model_kind,
            metadata: self.metadata@,
        }
    }
}

impl Duplicate for GgufMetadata {
    fn duplicate(&self) -> (r: GgufMetadata) {
        GgufMetadata {
            path: self.path.clone(),
            file_name: self.file_name.clone(),
            file_size_bytes: self.file_size_bytes,
            gguf_version: self.gguf_version,
            tensor_count: self.tensor_count,
            metadata_kv_count: self.metadata_kv_count,
            name: text::copy_opt(&self.name),
            architecture: text::copy_opt(&self.architecture),
            size_label: text::copy_opt(&self.size_label),
            native_context: self.native_context,
            block_count: self.block_count,
            expert_count: self.expert_count,
            expert_used_count: self.expert_used_count,
            tokenizer_has_chat_template: self.tokenizer_has_chat_template,
            quant: text::copy_opt(&self.quant),
            file_type: self.file_type,
            model_kind: self.model_kind,
            metadata: self.metadata.duplicate(),
        }
    }
}

impl Clone for GgufMetadata {
    fn clone(&self) -> (r: GgufMetadata)
        ensures
            r@ == self@,
    {
        self.duplicate()
    }
}

/// The on-disk identity used to keep profiler evidence tied to one exact GGUF.
#[derive(Debug, PartialEq)]
pub struct ModelIdentity {
    pub version: u32,
    pub canonical_path: String,
    pub file_size_bytes: u64,
    pub modified_at: Option<Timestamp>,
    pub metadata_hash: String,
}

/// What an identity holds.
#[verifier::ext_equal]
pub struct IdentityView {
    pub version: u32,
    pub canonical_path: Seq<char>,
    pub file_size_bytes: u64,
    pub modified_at: Option<Timestamp>,
    pub metadata_hash: Seq<char>,
}

impl View for ModelIdentity {
    type V = IdentityView;

    open spec fn view(&self) -> IdentityView {
        IdentityView {
            version: self.version,
            canonical_path: self.canonical_path@,
            file_size_bytes: self.file_size_bytes,
            modified_at: self.modified_at,
            metadata_hash: self.metadata_hash@,
        }
    }
}

impl Duplicate for ModelIdentity {
    fn duplicate(&self) -> (r: ModelIdentity) {
        ModelIdentity {
            version: self.version,
            canonical_path: self.canonical_path.clone(),
            file_size_bytes: self.file_size_bytes,
            modified_at: self.modified_at,
            metadata_hash: self.metadata_hash.clone(),
        }
    }
}

impl Clone for ModelIdentity {
    fn clone(&self) -> (r: ModelIdentity)
        ensures
            r@ == self@,
    {
        self.duplicate()
    }
}

pub const MODEL_IDENTITY_VERSION: u32 = 1;

/// A model found by a scan, with the label of its latest recommendation.
#[derive(Debug, PartialEq)]
pub struct ScanEntry {
    pub path: String,
    pub file_name: String,
    pub file_size_bytes: u64,
    pub architecture: Option<String>,
    pub quant: Option<String>,
    pub model_kind: ModelKind,
    pub native_context: Option<u64>,
    pub latest_recommendation: Option<String>,
}

/// What an entry of a scan holds.
#[verifier::ext_equal]
pub struct ScanView {
    pub path: Seq<char>,
    pub file_name: Seq<char>,
    pub file_size_bytes: u64,
    pub architecture: Option<Seq<char>>,
    pub quant: Option<Seq<char>>,
    pub model_kind: ModelKind,
    pub native_context: Option<u64>,
    pub latest_recommendation: Option<Seq<char>>,
}

impl View for ScanEntry {
    type V = ScanView;

    open spec fn view(&self) -> ScanView {
        ScanView {
            path: self.path@,
            file_name: self.file_name@,
            file_size_bytes: self.file_size_bytes,
            architecture: text::opt_text(self.architecture),
            quant: text::opt_text(self.quant),
            model_kind: self.model_kind,
            native_context: self.native_context,
            latest_recommendation: text::opt_text(self.latest_recommendation),
        }
    }
}

impl Duplicate for ScanEntry {
    fn duplicate(&self) -> (r: ScanEntry) {
        ScanEntry {
            path: self.path.clone(),
            file_name: self.file_name.clone(),
            file_size_bytes: self.file_size_bytes,
            architecture: text::copy_opt(&self.architecture),
            quant: text::copy_opt(&self.quant),
            model_kind: self.model_kind,
            native_context: self.native_context,
            latest_recommendation: text::copy_opt(&self.latest_recommendation),
        }
    }
}

impl Clone for ScanEntry {
    fn clone(&self) -> (r: ScanEntry)
        ensures
            r@ == self@,
    {
        self.duplicate()
    }
}

// ---------------------------------------------------------------------------
// The metadata map

/// The keys are in order, so that none occurs twice.
pub open spec fn in_order(v: Seq<(String, GgufValue)>) -> bool {
    forall|i: int, j: int|
        0 <= i < j < v.len() ==> text::precedes((#[trigger] v[i]).0@, (#[trigger] v[j]).0@)
}

/// What a list of entries maps keys to.
pub open spec fn entry_map(v: Seq<(String, GgufValue)>) -> Map<Seq<char>, ValueView>
    decreases v.len(),
{
    if v.len() == 0 {
        Map::empty()
    } else {
        entry_map(v.drop_last()).insert(v.last().0@, v.last().1@)
    }
}

proof fn entry_map_holds(v: Seq<(String, GgufValue)>)
    requires
        in_order(v),
    ensures
        forall|k: Seq<char>| #[trigger] entry_map(v).contains_key(k) ==> exists|i: int|
            0 <= i < v.len() && (#[trigger] v[i]).0@ == k,
        forall|i: int|
            0 <= i < v.len() ==> entry_map(v).contains_key((#[trigger] v[i]).0@) && entry_map(
                v,
            )[v[i].0@] == v[i].1@,
    decreases v.len(),
{
    if v.len() > 0 {
        let w = v.drop_last();
        assert forall|i: int, j: int| 0 <= i < j < w.len() implies text::precedes(
            (#[trigger] w[i]).0@,
            (#[trigger] w[j]).0@,
        ) by {
            assert(w[i] == v[i] && w[j] == v[j]);
        }
        entry_map_holds(w);
        assert forall|k: Seq<char>| #[trigger] entry_map(v).contains_key(k) implies exists|i: int|
            0 <= i < v.len() && (#[trigger] v[i]).0@ == k by {
            if k == v.last().0@ {
                assert(v[v.len() - 1].0@ == k);
            } else {
                assert(entry_map(w).contains_key(k));
                let i = choose|i: int| 0 <= i < w.len() && (#[trigger] w[i]).0@ == k;
                assert(v[i].0@ == k);
            }
        }
        assert forall|i: int| 0 <= i < v.len() implies entry_map(v).contains_key(
            (#[trigger] v[i]).0@,
        ) && entry_map(v)[v[i].0@] == v[i].1@ by {
            if i < w.len() {
                assert(w[i] == v[i]);
                text::precedes_is_total(v[i].0@, v.last().0@);
                assert(text::precedes(v[i].0@, v[v.len() - 1].0@));
            }
        }
    }
}

impl View for MetadataMap {
    type V = Map<Seq<char>, ValueView>;

    open spec fn view(&self) -> Map<Seq<char>, ValueView> {
        entry_map(self.entries@)
    }
}

impl Duplicate for GgufValue {
    fn duplicate(&self) -> (r: GgufValue) {
        match self {
            GgufValue::String(s) => GgufValue::String(s.clone()),
            GgufValue::Bool(b) => GgufValue::Bool(*b),
            GgufValue::U64(n) => GgufValue::U64(*n),
            GgufValue::I64(n) => GgufValue::I64(*n),
            GgufValue::F64(x) => GgufValue::F64(*x),
        }
    }
}

impl Clone for GgufValue {
    fn clone(&self) -> (r: GgufValue)
        ensures
            r@ == self@,
    {
        self.duplicate()
    }
}

proof fn entry_map_congruent(v: Seq<(String, GgufValue)>, w: Seq<(String, GgufValue)>)
    requires
        v.len() == w.len(),
        forall|i: int| 0 <= i < v.len() ==> v[i].0@ == w[i].0@ && v[i].1@ == w[i].1@,
    ensures
        entry_map(v) == entry_map(w),
    decreases v.len(),
{
    if v.len() > 0 {
        entry_map_congruent(v.drop_last(), w.drop_last());
    }
}

impl Duplicate for MetadataMap {
    fn duplicate(&self) -> (r: MetadataMap)
        ensures
            self.wf() ==> r.wf(),
    {
        let mut entries: Vec<(String, GgufValue)> = Vec::new();
        let ghost v = self.entries@;
        for i in 0..self.entries.len()
            invariant
                v == self.entries@,
                entries@.len() == i,
                forall|j: int|
                    0 <= j < i ==> entries@[j].0@ == v[j].0@ && entries@[j].1@ == v[j].1@,
        {
            entries.push((self.entries[i].0.clone(), self.entries[i].1.duplicate()));
        }
        proof {
            entry_map_congruent(entries@, v);
            if in_order(v) {
                assert forall|i: int, j: int| 0 <= i < j < entries@.len() implies text::precedes(
                    (#[trigger] entries@[i]).0@,
                    (#[trigger] entries@[j]).0@,
                ) by {
                    assert(text::precedes(v[i].0@, v[j].0@));
                }
            }
        }
        MetadataMap { entries }
    }
}

impl Clone for MetadataMap {
    fn clone(&self) -> (r: MetadataMap)
        ensures
            r@ == self@,
            self.wf() ==> r.wf(),
    {
        self.duplicate()
    }
}

impl MetadataMap {
    pub open spec fn wf(self) -> bool {
        in_order(self.entries@)
    }

    /// The map without entries.
    pub fn new() -> (r: MetadataMap)
        ensures
            r.wf(),
            r@ == Map::<Seq<char>, ValueView>::empty(),
    {
        MetadataMap { entries: Vec::new() }
    }

    /// Maps `key` to `value`, in place of an earlier value.
    pub fn insert(&mut self, key: String, value: GgufValue)
        requires
            old(self).wf(),
        ensures
            final(self).wf(),
            final(self)@ == old(self)@.insert(key@, value@),
    {
        let ghost v = self.entries@;
        let mut i: usize = 0;
        while i < self.entries.len() && text::before(
            self.entries[i].0.as_str(),
            key.as_str(),
        )
            invariant
                i <= self.entries@.len(),
                self.entries@ == v,
                in_order(v),
                forall|j: int| 0 <= j < i ==> text::precedes((#[trigger] v[j]).0@, key@),
            decreases self.entries@.len() - i,
        {
            i += 1;
        }
        let same = i < self.entries.len() && text::same_text(
            self.entries[i].0.as_str(),
            key.as_str(),
        );
        let ghost after = if same {
            v.update(i as int, (key, value))
        } else {
            v.insert(i as int, (key, value))
        };
        proof {
            insert_keeps_order(v, i as int, key, value);
        }
        if same {
            self.entries.remove(i);
            self.entries.insert(i, (key, value));
            proof {
                assert(self.entries@ =~= after);
            }
        } else {
            self.entries.insert(i, (key, value));
        }
    }

    /// The value of `key`.
    pub fn get(&self, key: &str) -> (r: Option<&GgufValue>)
        requires
            self.wf(),
        ensures
            match r {
                Some(value) => self@.contains_key(key@) && self@[key@] == value@,
                None => !self@.contains_key(key@),
            },
    {
        proof {
            entry_map_holds(self.entries@);
        }
        for i in 0..self.entries.len()
            invariant
                in_order(self.entries@),
                forall|j: int| 0 <= j < i ==> (#[trigger] self.entries@[j]).0@ != key@,
                forall|j: int|
                    0 <= j < self.entries@.len() ==> self@.contains_key(
                        (#[trigger] self.entries@[j]).0@,
                    ) && self@[self.entries@[j].0@] == self.entries@[j].1@,
        {
            if text::same_text(self.entries[i].0.as_str(), key) {
                return Some(&self.entries[i].1);
            }
        }
        None
    }
}

proof fn insert_keeps_order(v: Seq<(String, GgufValue)>, i: int, key: String, value: GgufValue)
    requires
        in_order(v),
        0 <= i <= v.len(),
        forall|j: int| 0 <= j < i ==> text::precedes((#[trigger] v[j]).0@, key@),
        i < v.len() ==> !text::precedes(v[i].0@, key@),
    ensures
        ({
            let after = if i < v.len() && v[i].0@ == key@ {
                v.update(i, (key, value))
            } else {
                v.insert(i, (key, value))
            };
            in_order(after) && entry_map(after) == entry_map(v).insert(key@, value@)
        }),
{
    let same = i < v.len() && v[i].0@ == key@;
    let after = if same {
        v.update(i, (key, value))
    } else {
        v.insert(i, (key, value))
    };
    if i < v.len() {
        text::precedes_is_total(v[i].0@, key@);
    }
    assert forall|a: int, b: int| 0 <= a < b < after.len() implies text::precedes(
        (#[trigger] after[a]).0@,
        (#[trigger] after[b]).0@,
    ) by {
        let old_a = if same || a <= i { a } else { a - 1 };
        let old_b = if same || b <= i { b } else { b - 1 };
        if a != i && b != i {
            assert(text::precedes(v[old_a].0@, v[old_b].0@));
        } else if a == i {
            assert(after[b] == v[old_b]);
            if same {
                assert(text::precedes(v[i].0@, v[b].0@));
            } else if old_b > i {
                assert(text::precedes(v[i].0@, v[old_b].0@));
                text::precedes_is_transitive(key@, v[i].0@, v[old_b].0@);
            }
        } else {
            assert(after[a] == v[a]);
        }
    }
    entry_map_holds(v);
    entry_map_holds(after);
    let m = entry_map(v).insert(key@, value@);
    let n = entry_map(after);
    assert(after[i] == (key, value));
    assert forall|k: Seq<char>|
        #![trigger m.dom().contains(k)]
        #![trigger n.dom().contains(k)]
        m.dom().contains(k) == n.dom().contains(k) && (m.dom().contains(k) ==> m[k] == n[k]) by {
        if k == key@ {
            assert(n.contains_key(after[i].0@));
        } else {
            if m.contains_key(k) {
                let j = choose|j: int| 0 <= j < v.len() && (#[trigger] v[j]).0@ == k;
                let p = if same || j < i { j } else { j + 1 };
                assert(after[p] == v[j]);
                assert(n.contains_key(after[p].0@));
            }
            if n.contains_key(k) {
                let j = choose|j: int| 0 <= j < after.len() && (#[trigger] after[j]).0@ == k;
                let p = if same || j < i { j } else { j - 1 };
                assert(j != i);
                assert(after[j] == v[p]);
                assert(entry_map(v).contains_key(v[p].0@));
            }
        }
    }
    assert(m =~= n);
}

// ---------------------------------------------------------------------------
// The file format

/// The number whose little-endian bytes are `b`.
pub open spec fn le_value(b: Seq<u8>) -> nat
    decreases b.len(),
{
    if b.len() == 0 {
        0
    } else {
        b[0] as nat + 256 * le_value(b.drop_first())
    }
}

/// The number in the `width` bytes at `pos`, and the position behind them.
pub open spec fn take_uint(b: Seq<u8>, pos: nat, width: nat) -> Result<(nat, nat), GgufError> {
    if pos + width <= b.len() {
        Ok((le_value(b.subrange(pos as int, (pos + width) as int)), pos + width))
    } else {
        Err(GgufError::UnexpectedEnd)
    }
}

/// The signed number with the two's-complement form `n` below `2 * half`.
pub open spec fn signed(n: nat, half: nat) -> int {
    if n < half {
        n as int
    } else {
        n - 2 * half
    }
}

/// The string at `pos`, a length in 8 bytes and as many bytes of UTF-8, and
/// the position behind it.
pub open spec fn take_text(b: Seq<u8>, pos: nat) -> Result<(Seq<char>, nat), GgufError> {
    match take_uint(b, pos, 8) {
        Err(e) => Err(e),
        Ok((len, start)) => if start + len > b.len() {
            Err(GgufError::UnexpectedEnd)
        } else {
            let bytes = b.subrange(start as int, (start + len) as int);
            if vstd::utf8::valid_utf8(bytes) {
                Ok((vstd::utf8::decode_utf8(bytes), start + len))
            } else {
                Err(GgufError::NotUtf8)
            }
        },
    }
}

/// The position `n` bytes on. It may lie behind the end of the file, but not
/// behind the last file offset.
pub open spec fn skip(pos: nat, n: nat) -> Result<nat, GgufError> {
    if n > i64::MAX {
        Err(GgufError::SkipTooLarge)
    } else if pos + n > i64::MAX {
        Err(GgufError::SeekOverflow)
    } else {
        Ok(pos + n)
    }
}

/// The position behind `count` strings.
pub open spec fn skip_texts(b: Seq<u8>, pos: nat, count: nat) -> Result<nat, GgufError>
    decreases count,
{
    if count == 0 {
        Ok(pos)
    } else {
        match take_uint(b, pos, 8) {
            Err(e) => Err(e),
            Ok((len, start)) => match skip(start, len) {
                Err(e) => Err(e),
                Ok(next) => skip_texts(b, next, (count - 1) as nat),
            },
        }
    }
}

/// The size in bytes of an array element of a type of fixed size.
pub open spec fn element_size(element_type: nat) -> Option<nat> {
    if element_type == 0 || element_type == 1 || element_type == 7 {
        Some(1)
    } else if element_type == 2 || element_type == 3 {
        Some(2)
    } else if 4 <= element_type <= 6 {
        Some(4)
    } else if 10 <= element_type <= 12 {
        Some(8)
    } else {
        None
    }
}

/// The position behind an array: the type of its elements, their number, and
/// the elements.
pub open spec fn array_end(b: Seq<u8>, pos: nat) -> Result<nat, GgufError> {
    match take_uint(b, pos, 4) {
        Err(e) => Err(e),
        Ok((element_type, p)) => match take_uint(b, p, 8) {
            Err(e) => Err(e),
            Ok((length, start)) => match element_size(element_type) {
                Some(size) => if length * size > u64::MAX {
                    Err(GgufError::ArraySizeOverflow)
                } else {
                    skip(start, length * size)
                },
                None => if element_type == 8 {
                    skip_texts(b, start, length)
                } else {
                    Err(GgufError::UnsupportedElementType(element_type as u32))
                },
            },
        },
    }
}

/// The value of type `value_type` at `pos`, absent for an array, and the
/// position behind it.
pub open spec fn take_value(b: Seq<u8>, pos: nat, value_type: nat) -> Result<
    (Option<ValueView>, nat),
    GgufError,
> {
    if value_type == 8 {
        match take_text(b, pos) {
            Err(e) => Err(e),
            Ok((s, end)) => Ok((Some(ValueView::Text(s)), end)),
        }
    } else if value_type == 9 {
        match array_end(b, pos) {
            Err(e) => Err(e),
            Ok(end) => Ok((None, end)),
        }
    } else {
        match value_width(value_type) {
            None => Err(GgufError::UnsupportedValueType(value_type as u32)),
            Some(width) => match take_uint(b, pos, width) {
                Err(e) => Err(e),
                Ok((n, end)) => Ok((Some(value_of(n, value_type)), end)),
            },
        }
    }
}

/// The size in bytes of a value of a type of fixed size.
pub open spec fn value_width(value_type: nat) -> Option<nat> {
    element_size(value_type)
}

/// The value of a type of fixed size whose bytes are those of `n`.
pub open spec fn value_of(n: nat, value_type: nat) -> ValueView {
    if value_type == 0 || value_type == 2 || value_type == 4 || value_type == 10 {
        ValueView::U64(n as u64)
    } else if value_type == 1 {
        ValueView::I64(signed(n, 0x80) as i64)
    } else if value_type == 3 {
        ValueView::I64(signed(n, 0x8000) as i64)
    } else if value_type == 5 {
        ValueView::I64(signed(n, 0x8000_0000) as i64)
    } else if value_type == 11 {
        ValueView::I64(signed(n, 0x8000_0000_0000_0000) as i64)
    } else if value_type == 6 {
        ValueView::F64(Real { bits: crate::measure::widened(n as u32) as u64 })
    } else if value_type == 7 {
        ValueView::Bool(n != 0)
    } else {
        ValueView::F64(Real { bits: n as u64 })
    }
}

/// `m` with the next `count` entries at `pos` inserted, and the position
/// behind them.
pub open spec fn take_entries(
    b: Seq<u8>,
    pos: nat,
    count: nat,
    m: Map<Seq<char>, ValueView>,
) -> Result<(Map<Seq<char>, ValueView>, nat), GgufError>
    decreases count,
{
    if count == 0 {
        Ok((m, pos))
    } else {
        match take_text(b, pos) {
            Err(e) => Err(e),
            Ok((key, p)) => match take_uint(b, p, 4) {
                Err(e) => Err(e),
                Ok((value_type, q)) => match take_value(b, q, value_type) {
                    Err(e) => Err(e),
                    Ok((value, next)) => take_entries(
                        b,
                        next,
                        (count - 1) as nat,
                        match value {
                            Some(v) => m.insert(key, v),
                            None => m,
                        },
                    ),
                },
            },
        }
    }
}

/// What the head of a GGUF file holds.
pub struct FileView {
    pub version: nat,
    pub tensor_count: nat,
    pub entry_count: nat,
    pub entries: Map<Seq<char>, ValueView>,
}

/// The head of a GGUF file: magic, version, number of tensors, number of
/// metadata entries, and the entries.
pub open spec fn parsed_file(b: Seq<u8>) -> Result<FileView, GgufError> {
    if b.len() < 4 {
        Err(GgufError::UnexpectedEnd)
    } else if b.take(4) != seq![0x47u8, 0x47u8, 0x55u8, 0x46u8] {
        Err(GgufError::InvalidMagic)
    } else {
        match take_uint(b, 4, 4) {
            Err(e) => Err(e),
            Ok((version, _)) => match take_uint(b, 8, 8) {
                Err(e) => Err(e),
                Ok((tensor_count, _)) => match take_uint(b, 16, 8) {
                    Err(e) => Err(e),
                    Ok((entry_count, _)) => match take_entries(b, 24, entry_count, Map::empty()) {
                        Err(e) => Err(e),
                        Ok((entries, _)) => Ok(
                            FileView { version, tensor_count, entry_count, entries },
                        ),
                    },
                },
            },
        }
    }
}

/// A reader that starts on part of a file and fails for want of bytes may be
/// given more of it; whatever else it says of the part, it says of the whole
/// file.
pub proof fn prefix_decides(b: Seq<u8>, n: int)
    requires
        0 <= n <= b.len(),
        parsed_file(b.take(n)) != Err::<FileView, GgufError>(GgufError::UnexpectedEnd),
    ensures
        parsed_file(b) == parsed_file(b.take(n)),
{
    let a = b.take(n);
    assert(a.take(4) =~= b.take(4));
    uint_prefix(b, n, 4, 4);
    uint_prefix(b, n, 8, 8);
    uint_prefix(b, n, 16, 8);
    if a.take(4) == seq![0x47u8, 0x47u8, 0x55u8, 0x46u8] {
        match take_uint(a, 16, 8) {
            Ok((count, _)) => {
                entries_prefix(b, n, 24, count, Map::empty());
            },
            Err(_) => {},
        }
    }
}

proof fn uint_prefix(b: Seq<u8>, n: int, pos: nat, width: nat)
    requires
        0 <= n <= b.len(),
    ensures
        take_uint(b.take(n), pos, width) is Ok ==> take_uint(b, pos, width) == take_uint(
            b.take(n),
            pos,
            width,
        ),
        take_uint(b.take(n), pos, width) is Err ==> take_uint(b.take(n), pos, width)
            == Err::<(nat, nat), GgufError>(GgufError::UnexpectedEnd),
{
    if pos + width <= n {
        assert(b.take(n).subrange(pos as int, (pos + width) as int) =~= b.subrange(
            pos as int,
            (pos + width) as int,
        ));
    }
}

proof fn text_prefix(b: Seq<u8>, n: int, pos: nat)
    requires
        0 <= n <= b.len(),
        take_text(b.take(n), pos) != Err::<(Seq<char>, nat), GgufError>(GgufError::UnexpectedEnd),
    ensures
        take_text(b, pos) == take_text(b.take(n), pos),
{
    uint_prefix(b, n, pos, 8);
    match take_uint(b.take(n), pos, 8) {
        Ok((len, start)) => {
            if start + len <= n {
                assert(b.take(n).subrange(start as int, (start + len) as int) =~= b.subrange(
                    start as int,
                    (start + len) as int,
                ));
            }
        },
        Err(_) => {},
    }
}

proof fn skip_texts_prefix(b: Seq<u8>, n: int, pos: nat, count: nat)
    requires
        0 <= n <= b.len(),
        skip_texts(b.take(n), pos, count) != Err::<nat, GgufError>(GgufError::UnexpectedEnd),
    ensures
        skip_texts(b, pos, count) == skip_texts(b.take(n), pos, count),
    decreases count,
{
    if count > 0 {
        uint_prefix(b, n, pos, 8);
        match take_uint(b.take(n), pos, 8) {
            Ok((len, start)) => {
                match skip(start, len) {
                    Ok(next) => {
                        skip_texts_prefix(b, n, next, (count - 1) as nat);
                    },
                    Err(_) => {},
                }
            },
            Err(_) => {},
        }
    }
}

proof fn value_prefix(b: Seq<u8>, n: int, pos: nat, value_type: nat)
    requires
        0 <= n <= b.len(),
        take_value(b.take(n), pos, value_type) != Err::<(Option<ValueView>, nat), GgufError>(
            GgufError::UnexpectedEnd,
        ),
    ensures
        take_value(b, pos, value_type) == take_value(b.take(n), pos, value_type),
{
    if value_type == 8 {
        text_prefix(b, n, pos);
    } else if value_type == 9 {
        uint_prefix(b, n, pos, 4);
        match take_uint(b.take(n), pos, 4) {
            Ok((element_type, p)) => {
                uint_prefix(b, n, p, 8);
                match take_uint(b.take(n), p, 8) {
                    Ok((length, start)) => {
                        if element_type == 8 {
                            skip_texts_prefix(b, n, start, length);
                        }
                    },
                    Err(_) => {},
                }
            },
            Err(_) => {},
        }
    } else {
        match value_width(value_type) {
            Some(width) => {
                uint_prefix(b, n, pos, width);
            },
            None => {},
        }
    }
}

proof fn entries_prefix(
    b: Seq<u8>,
    n: int,
    pos: nat,
    count: nat,
    m: Map<Seq<char>, ValueView>,
)
    requires
        0 <= n <= b.len(),
        take_entries(b.take(n), pos, count, m) != Err::<
            (Map<Seq<char>, ValueView>, nat),
            GgufError,
        >(GgufError::UnexpectedEnd),
    ensures
        take_entries(b, pos, count, m) == take_entries(b.take(n), pos, count, m),
    decreases count,
{
    if count > 0 {
        text_prefix(b, n, pos);
        match take_text(b.take(n), pos) {
            Ok((key, p)) => {
                uint_prefix(b, n, p, 4);
                match take_uint(b.take(n), p, 4) {
                    Ok((value_type, q)) => {
                        value_prefix(b, n, q, value_type);
                        match take_value(b.take(n), q, value_type) {
                            Ok((value, next)) => {
                                let extended = match value {
                                    Some(v) => m.insert(key, v),
                                    None => m,
                                };
                                entries_prefix(b, n, next, (count - 1) as nat, extended);
                            },
                            Err(_) => {},
                        }
                    },
                    Err(_) => {},
                }
            },
            Err(_) => {},
        }
    }
}

// ---------------------------------------------------------------------------
// Reading

/// `String::from_utf8`: the text that the bytes encode, where they are UTF-8.
#[verifier::external_body]
fn decode_text(bytes: Vec<u8>) -> (r: Option<String>)
    ensures
        match r {
            Some(s) => vstd::utf8::valid_utf8(bytes@) && s@ == vstd::utf8::decode_utf8(bytes@),
            None => !vstd::utf8::valid_utf8(bytes@),
        },
{
    std::string::String::from_utf8(bytes).ok()
}

proof fn le_value_bound(b: Seq<u8>)
    ensures
        b.len() == 1 ==> le_value(b) == b[0] && le_value(b) < 0x100,
        b.len() == 2 ==> le_value(b) < 0x1_0000,
        b.len() == 4 ==> le_value(b) < 0x1_0000_0000,
        b.len() == 8 ==> le_value(b) < 0x1_0000_0000_0000_0000,
{
    reveal_with_fuel(le_value, 9);
}

/// The number in the `width` bytes at `pos`, and the position behind them.
fn read_uint(bytes: &Vec<u8>, pos: u64, width: u64) -> (r: Result<(u64, u64), GgufError>)
    requires
        width == 1 || width == 2 || width == 4 || width == 8,
    ensures
        match r {
            Ok((n, next)) => take_uint(bytes@, pos as nat, width as nat) == Ok::<
                (nat, nat),
                GgufError,
            >((n as nat, next as nat)) && next <= bytes@.len() && (width == 1 ==> n < 0x100) && (
            width == 2 ==> n < 0x1_0000) && (width == 4 ==> n < 0x1_0000_0000),
            Err(e) => take_uint(bytes@, pos as nat, width as nat) == Err::<(nat, nat), GgufError>(
                e,
            ),
        },
{
    let total: usize = bytes.len();
    let len: u64 = total as u64;
    if width > len || pos > len - width {
        return Err(GgufError::UnexpectedEnd);
    }
    let ghost all = bytes@.subrange(pos as int, pos + width);
    proof {
        le_value_bound(all);
    }
    let mut left: u64 = width;
    let mut value: u64 = 0;
    while left > 0
        invariant
            left <= width,
            pos + width <= bytes@.len() == total,
            width == 1 || width == 2 || width == 4 || width == 8,
            all == bytes@.subrange(pos as int, pos + width),
            value == le_value(all.skip(left as int)),
        decreases left,
    {
        let ghost rest = all.skip(left - 1);
        proof {
            assert(rest.drop_first() =~= all.skip(left as int));
            assert(rest[0] == bytes@[pos + left - 1]);
            le_tail_bound(rest);
        }
        value = 256 * value + bytes[(pos + left - 1) as usize] as u64;
        left = left - 1;
    }
    proof {
        assert(all.skip(0) =~= all);
    }
    Ok((value, pos + width))
}

proof fn le_tail_bound(b: Seq<u8>)
    requires
        b.len() <= 8,
    ensures
        le_value(b) <= u64::MAX,
{
    reveal_with_fuel(le_value, 9);
}

/// The string at `pos`, and the position behind it.
fn read_gguf_string(bytes: &Vec<u8>, pos: u64) -> (r: Result<(String, u64), GgufError>)
    ensures
        match r {
            Ok((s, next)) => take_text(bytes@, pos as nat) == Ok::<(Seq<char>, nat), GgufError>(
                (s@, next as nat),
            ) && next <= bytes@.len(),
            Err(e) => take_text(bytes@, pos as nat) == Err::<(Seq<char>, nat), GgufError>(e),
        },
{
    let (len, start) = match read_uint(bytes, pos, 8) {
        Ok(found) => found,
        Err(e) => {
            return Err(e);
        },
    };
    let total: usize = bytes.len();
    if len > total as u64 - start {
        return Err(GgufError::UnexpectedEnd);
    }
    let mut part: Vec<u8> = Vec::new();
    let mut i: u64 = start;
    while i < start + len
        invariant
            start <= i <= start + len <= bytes@.len() == total,
            part@ == bytes@.subrange(start as int, i as int),
        decreases start + len - i,
    {
        proof {
            assert(bytes@.subrange(start as int, i + 1) =~= bytes@.subrange(
                start as int,
                i as int,
            ).push(bytes@[i as int]));
        }
        part.push(bytes[i as usize]);
        i = i + 1;
    }
    match decode_text(part) {
        Some(s) => Ok((s, start + len)),
        None => Err(GgufError::NotUtf8),
    }
}

/// The position `n` bytes on.
fn skip_bytes(pos: u64, n: u64) -> (r: Result<u64, GgufError>)
    ensures
        match r {
            Ok(next) => skip(pos as nat, n as nat) == Ok::<nat, GgufError>(next as nat),
            Err(e) => skip(pos as nat, n as nat) == Err::<nat, GgufError>(e),
        },
{
    if n > i64::MAX as u64 {
        Err(GgufError::SkipTooLarge)
    } else if pos > i64::MAX as u64 - n {
        Err(GgufError::SeekOverflow)
    } else {
        Ok(pos + n)
    }
}

/// The size in bytes of an array element of a type of fixed size.
fn element_width(element_type: u32) -> (r: Option<u64>)
    ensures
        match r {
            Some(n) => element_size(element_type as nat) == Some(n as nat) && (n == 1 || n == 2 || n
                == 4 || n == 8),
            None => element_size(element_type as nat) is None,
        },
{
    match element_type {
        0 | 1 | 7 => Some(1),
        2 | 3 => Some(2),
        4 | 5 | 6 => Some(4),
        10 | 11 | 12 => Some(8),
        _ => None,
    }
}

/// The position behind the array at `pos`.
fn skip_array(bytes: &Vec<u8>, pos: u64) -> (r: Result<u64, GgufError>)
    ensures
        match r {
            Ok(next) => array_end(bytes@, pos as nat) == Ok::<nat, GgufError>(next as nat),
            Err(e) => array_end(bytes@, pos as nat) == Err::<nat, GgufError>(e),
        },
{
    let (kind, p) = match read_uint(bytes, pos, 4) {
        Ok(found) => found,
        Err(e) => {
            return Err(e);
        },
    };
    let element_type: u32 = kind as u32;
    let (length, start) = match read_uint(bytes, p, 8) {
        Ok(found) => found,
        Err(e) => {
            return Err(e);
        },
    };
    match element_width(element_type) {
        Some(width) => match length.checked_mul(width) {
            Some(size) => skip_bytes(start, size),
            None => Err(GgufError::ArraySizeOverflow),
        },
        None => {
            if element_type != 8 {
                return Err(GgufError::UnsupportedElementType(element_type));
            }
            let mut left: u64 = length;
            let mut at: u64 = start;
            while left > 0
                invariant
                    skip_texts(bytes@, at as nat, left as nat) == skip_texts(
                        bytes@,
                        start as nat,
                        length as nat,
                    ),
                    array_end(bytes@, pos as nat) == skip_texts(
                        bytes@,
                        start as nat,
                        length as nat,
                    ),
                decreases left,
            {
                let (len, next) = match read_uint(bytes, at, 8) {
                    Ok(found) => found,
                    Err(e) => {
                        return Err(e);
                    },
                };
                at = match skip_bytes(next, len) {
                    Ok(found) => found,
                    Err(e) => {
                        return Err(e);
                    },
                };
                left = left - 1;
            }
            Ok(at)
        },
    }
}

/// The signed number with the two's-complement form `n` below `2 * half`.
fn to_signed(n: u64, half: u64) -> (r: i64)
    requires
        0 < half <= 0x8000_0000_0000_0000,
        n < 2 * half,
    ensures
        r == signed(n as nat, half as nat),
{
    if n < half {
        n as i64
    } else {
        (n as i128 - 2 * (half as i128)) as i64
    }
}

/// The value of type `value_type` at `pos`, absent for an array, and the
/// position behind it.
fn read_value_or_skip(bytes: &Vec<u8>, pos: u64, value_type: u32) -> (r: Result<
    (Option<GgufValue>, u64),
    GgufError,
>)
    ensures
        match r {
            Ok((value, next)) => take_value(bytes@, pos as nat, value_type as nat) == Ok::<
                (Option<ValueView>, nat),
                GgufError,
            >(
                (
                    match value {
                        Some(v) => Some(v@),
                        None => None,
                    },
                    next as nat,
                ),
            ),
            Err(e) => take_value(bytes@, pos as nat, value_type as nat) == Err::<
                (Option<ValueView>, nat),
                GgufError,
            >(e),
        },
{
    if value_type == 8 {
        return match read_gguf_string(bytes, pos) {
            Ok((s, next)) => Ok((Some(GgufValue::String(s)), next)),
            Err(e) => Err(e),
        };
    }
    if value_type == 9 {
        return match skip_array(bytes, pos) {
            Ok(next) => Ok((None, next)),
            Err(e) => Err(e),
        };
    }
    let width: u64 = match element_width(value_type) {
        Some(width) => width,
        None => {
            return Err(GgufError::UnsupportedValueType(value_type));
        },
    };
    let (n, next) = match read_uint(bytes, pos, width) {
        Ok(found) => found,
        Err(e) => {
            return Err(e);
        },
    };
    let value = match value_type {
        0 | 2 | 4 | 10 => GgufValue::U64(n),
        1 => GgufValue::I64(to_signed(n, 0x80)),
        3 => GgufValue::I64(to_signed(n, 0x8000)),
        5 => GgufValue::I64(to_signed(n, 0x8000_0000)),
        11 => GgufValue::I64(to_signed(n, 0x8000_0000_0000_0000)),
        6 => GgufValue::F64(widen(n as u32)),
        7 => GgufValue::Bool(n != 0),
        _ => GgufValue::F64(Real { bits: n }),
    };
    Ok((Some(value), next))
}

/// The head of a GGUF file as it was read.
pub struct GgufHead {
    pub gguf_version: u32,
    pub tensor_count: u64,
    pub metadata_kv_count: u64,
    pub metadata: MetadataMap,
}

impl View for GgufHead {
    type V = FileView;

    open spec fn view(&self) -> FileView {
        FileView {
            version: self.gguf_version as nat,
            tensor_count: self.tensor_count as nat,
            entry_count: self.metadata_kv_count as nat,
            entries: self.metadata@,
        }
    }
}

/// Reads the head of a GGUF file from its first bytes.
pub fn read_head(bytes: &Vec<u8>) -> (r: Result<GgufHead, GgufError>)
    ensures
        match r {
            Ok(head) => head.metadata.wf() && parsed_file(bytes@) == Ok::<FileView, GgufError>(
                head@,
            ),
            Err(e) => parsed_file(bytes@) == Err::<FileView, GgufError>(e),
        },
{
    if bytes.len() < 4 {
        return Err(GgufError::UnexpectedEnd);
    }
    proof {
        let magic = seq![0x47u8, 0x47u8, 0x55u8, 0x46u8];
        let head = bytes@.take(4);
        assert(head[0] == bytes@[0] && head[1] == bytes@[1] && head[2] == bytes@[2] && head[3]
            == bytes@[3]);
        assert(magic[0] == 0x47 && magic[1] == 0x47 && magic[2] == 0x55 && magic[3] == 0x46);
        if head[0] == 0x47 && head[1] == 0x47 && head[2] == 0x55 && head[3] == 0x46 {
            assert(head =~= magic);
        }
    }
    if bytes[0] != 0x47 || bytes[1] != 0x47 || bytes[2] != 0x55 || bytes[3] != 0x46 {
        return Err(GgufError::InvalidMagic);
    }
    let (version, _) = match read_uint(bytes, 4, 4) {
        Ok(found) => found,
        Err(e) => {
            return Err(e);
        },
    };
    let (tensor_count, _) = match read_uint(bytes, 8, 8) {
        Ok(found) => found,
        Err(e) => {
            return Err(e);
        },
    };
    let (count, _) = match read_uint(bytes, 16, 8) {
        Ok(found) => found,
        Err(e) => {
            return Err(e);
        },
    };
    let mut metadata = MetadataMap::new();
    let mut left: u64 = count;
    let mut at: u64 = 24;
    let ghost whole = take_entries(bytes@, 24, count as nat, Map::empty());
    while left > 0
        invariant
            metadata.wf(),
            take_entries(bytes@, at as nat, left as nat, metadata@) == whole,
            whole matches Err(e) ==> parsed_file(bytes@) == Err::<FileView, GgufError>(e),
        decreases left,
    {
        let (key, p) = match read_gguf_string(bytes, at) {
            Ok(found) => found,
            Err(e) => {
                return Err(e);
            },
        };
        let (kind, q) = match read_uint(bytes, p, 4) {
            Ok(found) => found,
            Err(e) => {
                return Err(e);
            },
        };
        match read_value_or_skip(bytes, q, kind as u32) {
            Ok((value, next)) => {
                if let Some(v) = value {
                    metadata.insert(key, v);
                }
                at = next;
            },
            Err(e) => {
                return Err(e);
            },
        }
        left = left - 1;
    }
    Ok(
        GgufHead {
            gguf_version: version as u32,
            tensor_count,
            metadata_kv_count: count,
            metadata,
        },
    )
}

// ---------------------------------------------------------------------------
// What the metadata says of the model

/// The text of `key`, where its value is a string.
pub open spec fn text_entry(m: Map<Seq<char>, ValueView>, key: Seq<char>) -> Option<Seq<char>> {
    if m.contains_key(key) {
        match m[key] {
            ValueView::Text(s) => Some(s),
            _ => None,
        }
    } else {
        None
    }
}

/// The number that a value stands for, where it is a whole number and not
/// negative.
pub open spec fn whole_number(v: ValueView) -> Option<u64> {
    match v {
        ValueView::U64(n) => Some(n),
        ValueView::I64(n) => if n >= 0 {
            Some(n as u64)
        } else {
            None
        },
        _ => None,
    }
}

/// The number of `key`.
pub open spec fn number_entry(m: Map<Seq<char>, ValueView>, key: Seq<char>) -> Option<u64> {
    if m.contains_key(key) {
        whole_number(m[key])
    } else {
        None
    }
}

/// `key` is the first of the keys that end in `suffix`.
pub open spec fn first_key(
    m: Map<Seq<char>, ValueView>,
    suffix: Seq<char>,
    key: Seq<char>,
) -> bool {
    &&& m.contains_key(key)
    &&& text::ends_with(key, suffix)
    &&& forall|other: Seq<char>| #[trigger]
        m.contains_key(other) && text::ends_with(other, suffix) ==> other == key || text::precedes(
            key,
            other,
        )
}

/// The number of the first key that ends in `suffix`.
pub open spec fn suffix_entry(m: Map<Seq<char>, ValueView>, suffix: Seq<char>) -> Option<u64> {
    if exists|key: Seq<char>| first_key(m, suffix, key) {
        number_entry(m, choose|key: Seq<char>| first_key(m, suffix, key))
    } else {
        None
    }
}

/// Some key speaks of a chat template.
pub open spec fn chat_template_entry(m: Map<Seq<char>, ValueView>) -> bool {
    exists|key: Seq<char>| #[trigger] m.contains_key(key) && text::occurs(key, "chat_template"@)
}

/// The quantisation that a file type stands for.
pub open spec fn quant_name(file_type: u64) -> Option<Seq<char>> {
    match file_type {
        0 => Some("F32"@),
        1 => Some("F16"@),
        2 => Some("Q4_0"@),
        3 => Some("Q4_1"@),
        6 => Some("Q5_0"@),
        7 => Some("Q5_1"@),
        8 => Some("Q8_0"@),
        10 => Some("Q2_K"@),
        11 => Some("Q3_K_S"@),
        12 => Some("Q3_K_M"@),
        13 => Some("Q3_K_L"@),
        14 => Some("Q4_K_S"@),
        15 => Some("Q4_K_M"@),
        16 => Some("Q5_K_S"@),
        17 => Some("Q5_K_M"@),
        18 => Some("Q6_K"@),
        19 => Some("IQ2_XXS"@),
        20 => Some("IQ2_XS"@),
        21 => Some("Q2_K_S"@),
        22 => Some("IQ3_XS"@),
        23 => Some("IQ3_XXS"@),
        24 => Some("IQ1_S"@),
        25 => Some("IQ4_NL"@),
        26 => Some("IQ3_S"@),
        27 => Some("IQ3_M"@),
        28 => Some("IQ2_S"@),
        29 => Some("IQ2_M"@),
        30 => Some("IQ4_XS"@),
        31 => Some("IQ1_M"@),
        32 => Some("BF16"@),
        33 => Some("TQ1_0"@),
        34 => Some("TQ2_0"@),
        35 => Some("Q4_0_4_4"@),
        36 => Some("Q4_0_4_8"@),
        37 => Some("Q4_0_8_8"@),
        38 => Some("MXFP4"@),
        _ => None,
    }
}

/// The file types up to 38, but for three, stand for a quantisation, and no two
/// of them for the same one.
pub proof fn quants_are_distinct(a: u64, b: u64)
    ensures
        quant_name(a) is Some == (a <= 38 && a != 4 && a != 5 && a != 9),
        quant_name(a) is Some && quant_name(a) == quant_name(b) ==> a == b,
{
    reveal_strlit("F32");
    reveal_strlit("F16");
    reveal_strlit("Q4_0");
    reveal_strlit("Q4_1");
    reveal_strlit("Q5_0");
    reveal_strlit("Q5_1");
    reveal_strlit("Q8_0");
    reveal_strlit("Q2_K");
    reveal_strlit("Q3_K_S");
    reveal_strlit("Q3_K_M");
    reveal_strlit("Q3_K_L");
    reveal_strlit("Q4_K_S");
    reveal_strlit("Q4_K_M");
    reveal_strlit("Q5_K_S");
    reveal_strlit("Q5_K_M");
    reveal_strlit("Q6_K");
    reveal_strlit("IQ2_XXS");
    reveal_strlit("IQ2_XS");
    reveal_strlit("Q2_K_S");
    reveal_strlit("IQ3_XS");
    reveal_strlit("IQ3_XXS");
    reveal_strlit("IQ1_S");
    reveal_strlit("IQ4_NL");
    reveal_strlit("IQ3_S");
    reveal_strlit("IQ3_M");
    reveal_strlit("IQ2_S");
    reveal_strlit("IQ2_M");
    reveal_strlit("IQ4_XS");
    reveal_strlit("IQ1_M");
    reveal_strlit("BF16");
    reveal_strlit("TQ1_0");
    reveal_strlit("TQ2_0");
    reveal_strlit("Q4_0_4_4");
    reveal_strlit("Q4_0_4_8");
    reveal_strlit("Q4_0_8_8");
    reveal_strlit("MXFP4");
    if quant_name(a) is Some && quant_name(a) == quant_name(b) {
        let s = quant_name(a)->0;
        let u = quant_name(b)->0;
        assert(s.len() == u.len());
        assert(s[0] == u[0] && s[1] == u[1] && s[2] == u[2] && s[3] == u[3]);
        assert(s[4] == u[4] && s[5] == u[5] && s[6] == u[6] && s[7] == u[7]);
    }
}

/// The quantisation that a match of the quantisation pattern tells: its first
/// group, in upper case.
pub open spec fn quant_of_match(found: Option<Seq<Option<Seq<char>>>>) -> Option<Seq<char>> {
    match matching::group(found, 1) {
        Some(name) => Some(text::uppered(name)),
        None => None,
    }
}

/// The pattern of quantisation names, of any case.
pub const QUANT_PATTERN: &'static str = "(?i)(IQ[0-9]+(?:_[A-Z0-9]+)+|Q[0-9]+(?:_[A-Z0-9]+)+|BF16|F16|F32)";

/// The quantisation that a file name tells.
pub open spec fn inferred_quant(file_name: Seq<char>) -> Option<Seq<char>> {
    quant_of_match(matching::regex_captures(QUANT_PATTERN@, file_name))
}

/// The quantisation: what the file name tells, or else the file type.
pub open spec fn quant_of(inferred: Option<Seq<char>>, file_type: Option<u64>) -> Option<
    Seq<char>,
> {
    match (inferred, file_type) {
        (Some(name), _) => Some(name),
        (None, Some(t)) => quant_name(t),
        (None, None) => None,
    }
}

/// The kind of model: a mixture of experts where the metadata counts experts
/// or the file name or the architecture says so.
pub open spec fn kind_of(
    expert_count: Option<u64>,
    block_count: Option<u64>,
    architecture: Option<Seq<char>>,
    file_name: Seq<char>,
) -> ModelKind {
    if (expert_count matches Some(n) && n > 0) || text::occurs(text::lowered(file_name), "moe"@) || (
    architecture matches Some(a) && text::occurs(text::lowered(a), "moe"@)) {
        ModelKind::Moe
    } else if architecture is Some || block_count is Some {
        ModelKind::Dense
    } else {
        ModelKind::Unknown
    }
}

/// The file name of a path, empty where it has none.
pub open spec fn name_of(path: Seq<char>) -> Seq<char> {
    match path::file_name(path) {
        Some(name) => name,
        None => seq![],
    }
}

impl GgufMetadata {
    /// The description tells what the head of the file at `path` holds.
    pub open spec fn describes(self, path: Seq<char>, size: u64, f: FileView) -> bool {
        let m = f.entries;
        &&& self.metadata.wf()
        &&& self.metadata@ == m
        &&& self.path@ == path
        &&& self.file_name@ == name_of(path)
        &&& self.file_size_bytes == size
        &&& self.gguf_version == f.version
        &&& self.tensor_count == f.tensor_count
        &&& self.metadata_kv_count == f.entry_count
        &&& text::opt_text(self.name) == text_entry(m, "general.name"@)
        &&& text::opt_text(self.architecture) == text_entry(m, "general.architecture"@)
        &&& text::opt_text(self.size_label) == text_entry(m, "general.size_label"@)
        &&& self.native_context == suffix_entry(m, ".context_length"@)
        &&& self.block_count == suffix_entry(m, ".block_count"@)
        &&& self.expert_count == suffix_entry(m, ".expert_count"@)
        &&& self.expert_used_count == suffix_entry(m, ".expert_used_count"@)
        &&& self.tokenizer_has_chat_template == chat_template_entry(m)
        &&& self.file_type == number_entry(m, "general.file_type"@)
        &&& text::opt_text(self.quant) == quant_of(inferred_quant(name_of(path)), self.file_type)
        &&& self.model_kind == kind_of(
            self.expert_count,
            self.block_count,
            text::opt_text(self.architecture),
            name_of(path),
        )
    }
}

/// The only key with a suffix gives its number, whatever stands before the
/// suffix; without such a key there is none.
pub proof fn suffixes_are_found(
    m: Map<Seq<char>, ValueView>,
    suffix: Seq<char>,
    key: Seq<char>,
)
    ensures
        (forall|other: Seq<char>| #[trigger]
            m.contains_key(other) ==> !text::ends_with(other, suffix)) ==> suffix_entry(m, suffix)
            is None,
        m.contains_key(key) && text::ends_with(key, suffix) && (forall|other: Seq<char>| #[trigger]
            m.contains_key(other) && text::ends_with(other, suffix) ==> other == key) ==> {
            &&& m[key] is U64 ==> suffix_entry(m, suffix) == Some(m[key]->U64_0)
            &&& m[key] is Text ==> suffix_entry(m, suffix) is None
            &&& m[key] is I64 && m[key]->I64_0 < 0 ==> suffix_entry(m, suffix) is None
        },
{
    if m.contains_key(key) && text::ends_with(key, suffix) && (forall|other: Seq<char>| #[trigger]
        m.contains_key(other) && text::ends_with(other, suffix) ==> other == key) {
        assert(first_key(m, suffix, key));
        let found = choose|key: Seq<char>| first_key(m, suffix, key);
        assert(first_key(m, suffix, found));
        assert(found == key);
    }
}

/// What kind of model a file holds, by its entries: one without experts whose
/// file name and architecture do not speak of a mixture is never taken for one.
/// It is dense where its architecture or its number of blocks is told, and
/// unknown otherwise.
pub proof fn models_without_experts_are_no_mixtures(
    g: GgufMetadata,
    path: Seq<char>,
    size: u64,
    f: FileView,
)
    requires
        g.describes(path, size, f),
        forall|key: Seq<char>| #[trigger]
            f.entries.contains_key(key) && text::ends_with(key, ".expert_count"@) ==> {
                &&& f.entries[key] is U64 ==> f.entries[key]->U64_0 == 0
                &&& f.entries[key] is I64 ==> f.entries[key]->I64_0 <= 0
            },
        !text::occurs(text::lowered(name_of(path)), "moe"@),
        f.entries.contains_key("general.architecture"@)
            && f.entries["general.architecture"@] is Text ==> !text::occurs(
            text::lowered(f.entries["general.architecture"@]->Text_0),
            "moe"@,
        ),
    ensures
        g.model_kind != ModelKind::Moe,
        f.entries.contains_key("general.architecture"@)
            && f.entries["general.architecture"@] is Text ==> g.model_kind == ModelKind::Dense,
        g.block_count is Some ==> g.model_kind == ModelKind::Dense,
        (!f.entries.contains_key("general.architecture"@)
            || f.entries["general.architecture"@] !is Text) && (forall|key: Seq<char>| #[trigger]
            f.entries.contains_key(key) ==> !text::ends_with(key, ".block_count"@))
            ==> g.model_kind == ModelKind::Unknown,
{
    if exists|key: Seq<char>| first_key(f.entries, ".expert_count"@, key) {
        let key = choose|key: Seq<char>| first_key(f.entries, ".expert_count"@, key);
        assert(f.entries.contains_key(key) && text::ends_with(key, ".expert_count"@));
    }
}

/// A file with experts is a mixture, and so is one whose file name or
/// architecture says so, in whatever case.
pub proof fn models_with_experts_are_mixtures(
    g: GgufMetadata,
    path: Seq<char>,
    size: u64,
    f: FileView,
)
    requires
        g.describes(path, size, f),
    ensures
        g.expert_count is Some && g.expert_count->0 > 0 ==> g.model_kind == ModelKind::Moe,
        text::occurs(text::lowered(name_of(path)), "moe"@) ==> g.model_kind == ModelKind::Moe,
        f.entries.contains_key("general.architecture"@)
            && f.entries["general.architecture"@] is Text && text::occurs(
            text::lowered(f.entries["general.architecture"@]->Text_0),
            "moe"@,
        ) ==> g.model_kind == ModelKind::Moe,
{
}

/// What a description tells stands in the file: its texts under their keys, and
/// its numbers under the only key that ends as theirs does.
pub proof fn descriptions_tell_the_entries(
    g: GgufMetadata,
    path: Seq<char>,
    size: u64,
    f: FileView,
    key: Seq<char>,
    n: u64,
)
    requires
        g.describes(path, size, f),
        f.entries.contains_key(key),
        f.entries[key] == ValueView::U64(n),
    ensures
        g.path@ == path,
        g.file_size_bytes == size,
        g.gguf_version == f.version,
        g.tensor_count == f.tensor_count,
        g.metadata_kv_count == f.entry_count,
        text::opt_text(g.name) == (if f.entries.contains_key("general.name"@)
            && f.entries["general.name"@] is Text {
            Some(f.entries["general.name"@]->Text_0)
        } else {
            None
        }),
        text::opt_text(g.architecture) == (if f.entries.contains_key("general.architecture"@)
            && f.entries["general.architecture"@] is Text {
            Some(f.entries["general.architecture"@]->Text_0)
        } else {
            None
        }),
        text::opt_text(g.size_label) == (if f.entries.contains_key("general.size_label"@)
            && f.entries["general.size_label"@] is Text {
            Some(f.entries["general.size_label"@]->Text_0)
        } else {
            None
        }),
        key == "general.file_type"@ ==> g.file_type == Some(n),
        only_key(f.entries, ".context_length"@, key) ==> g.native_context == Some(n),
        only_key(f.entries, ".block_count"@, key) ==> g.block_count == Some(n),
        only_key(f.entries, ".expert_count"@, key) ==> g.expert_count == Some(n),
        only_key(f.entries, ".expert_used_count"@, key) ==> g.expert_used_count == Some(n),
        text::occurs(key, "chat_template"@) ==> g.tokenizer_has_chat_template,
        (forall|other: Seq<char>| #[trigger]
            f.entries.contains_key(other) ==> !text::occurs(other, "chat_template"@))
            ==> !g.tokenizer_has_chat_template,
{
    suffixes_are_found(f.entries, ".context_length"@, key);
    suffixes_are_found(f.entries, ".block_count"@, key);
    suffixes_are_found(f.entries, ".expert_count"@, key);
    suffixes_are_found(f.entries, ".expert_used_count"@, key);
}

/// `key` is the only key that ends in `suffix`.
pub open spec fn only_key(
    m: Map<Seq<char>, ValueView>,
    suffix: Seq<char>,
    key: Seq<char>,
) -> bool {
    &&& m.contains_key(key)
    &&& text::ends_with(key, suffix)
    &&& forall|other: Seq<char>| #[trigger]
        m.contains_key(other) && text::ends_with(other, suffix) ==> other == key
}

/// The text of `key`, where its value is a string.
fn string_value(metadata: &MetadataMap, key: &str) -> (r: Option<String>)
    requires
        metadata.wf(),
    ensures
        text::opt_text(r) == text_entry(metadata@, key@),
{
    match metadata.get(key) {
        Some(GgufValue::String(value)) => Some(value.clone()),
        _ => None,
    }
}

/// The number that a value stands for.
fn as_whole(value: &GgufValue) -> (r: Option<u64>)
    ensures
        r == whole_number(value@),
{
    match value {
        GgufValue::U64(n) => Some(*n),
        GgufValue::I64(n) => {
            if *n >= 0 {
                Some(*n as u64)
            } else {
                None
            }
        },
        _ => None,
    }
}

/// The number of `key`.
fn u64_value(metadata: &MetadataMap, key: &str) -> (r: Option<u64>)
    requires
        metadata.wf(),
    ensures
        r == number_entry(metadata@, key@),
{
    match metadata.get(key) {
        Some(value) => as_whole(value),
        None => None,
    }
}

/// The number of the first key that ends in `suffix`.
fn first_u64_with_suffix(metadata: &MetadataMap, suffix: &str) -> (r: Option<u64>)
    requires
        metadata.wf(),
    ensures
        r == suffix_entry(metadata@, suffix@),
{
    let ghost v = metadata.entries@;
    proof {
        entry_map_holds(v);
    }
    for i in 0..metadata.entries.len()
        invariant
            v == metadata.entries@,
            in_order(v),
            forall|j: int|
                0 <= j < i ==> !text::ends_with((#[trigger] v[j]).0@, suffix@),
            forall|k: Seq<char>| #[trigger] metadata@.contains_key(k) ==> exists|j: int|
                0 <= j < v.len() && (#[trigger] v[j]).0@ == k,
            forall|j: int|
                0 <= j < v.len() ==> metadata@.contains_key((#[trigger] v[j]).0@)
                    && metadata@[v[j].0@] == v[j].1@,
    {
        if text::has_suffix(metadata.entries[i].0.as_str(), suffix) {
            proof {
                let key = v[i as int].0@;
                let m = metadata@;
                assert forall|other: Seq<char>| #[trigger]
                    m.contains_key(other) && text::ends_with(other, suffix@) implies other == key
                    || text::precedes(key, other) by {
                    let j = choose|j: int| 0 <= j < v.len() && (#[trigger] v[j]).0@ == other;
                    assert(j >= i);
                    if j > i {
                        assert(text::precedes(v[i as int].0@, v[j].0@));
                    }
                }
                assert(first_key(m, suffix@, key));
                let chosen = choose|k: Seq<char>| first_key(m, suffix@, k);
                if chosen != key {
                    text::precedes_is_total(chosen, key);
                    assert(m.contains_key(key) && m.contains_key(chosen));
                }
            }
            return as_whole(&metadata.entries[i].1);
        }
    }
    proof {
        let m = metadata@;
        assert forall|k: Seq<char>| !first_key(m, suffix@, k) by {
            if m.contains_key(k) {
                let j = choose|j: int| 0 <= j < v.len() && (#[trigger] v[j]).0@ == k;
            }
        }
    }
    None
}

/// Whether some key speaks of a chat template.
fn has_chat_template(metadata: &MetadataMap) -> (r: bool)
    requires
        metadata.wf(),
    ensures
        r == chat_template_entry(metadata@),
{
    let ghost v = metadata.entries@;
    proof {
        entry_map_holds(v);
    }
    for i in 0..metadata.entries.len()
        invariant
            v == metadata.entries@,
            forall|j: int|
                0 <= j < i ==> !text::occurs((#[trigger] v[j]).0@, "chat_template"@),
            forall|j: int| 0 <= j < v.len() ==> metadata@.contains_key((#[trigger] v[j]).0@),
    {
        if text::contains(metadata.entries[i].0.as_str(), "chat_template") {
            proof {
                assert(metadata@.contains_key(v[i as int].0@));
            }
            return true;
        }
    }
    proof {
        assert forall|k: Seq<char>| #[trigger] metadata@.contains_key(k) implies !text::occurs(
            k,
            "chat_template"@,
        ) by {
            let j = choose|j: int| 0 <= j < v.len() && (#[trigger] v[j]).0@ == k;
        }
    }
    false
}

/// The quantisation that a file type stands for.
pub fn quant_from_file_type(file_type: u64) -> (r: Option<String>)
    ensures
        text::opt_text(r) == quant_name(file_type),
{
    let quant = match file_type {
        0 => "F32",
        1 => "F16",
        2 => "Q4_0",
        3 => "Q4_1",
        6 => "Q5_0",
        7 => "Q5_1",
        8 => "Q8_0",
        10 => "Q2_K",
        11 => "Q3_K_S",
        12 => "Q3_K_M",
        13 => "Q3_K_L",
        14 => "Q4_K_S",
        15 => "Q4_K_M",
        16 => "Q5_K_S",
        17 => "Q5_K_M",
        18 => "Q6_K",
        19 => "IQ2_XXS",
        20 => "IQ2_XS",
        21 => "Q2_K_S",
        22 => "IQ3_XS",
        23 => "IQ3_XXS",
        24 => "IQ1_S",
        25 => "IQ4_NL",
        26 => "IQ3_S",
        27 => "IQ3_M",
        28 => "IQ2_S",
        29 => "IQ2_M",
        30 => "IQ4_XS",
        31 => "IQ1_M",
        32 => "BF16",
        33 => "TQ1_0",
        34 => "TQ2_0",
        35 => "Q4_0_4_4",
        36 => "Q4_0_4_8",
        37 => "Q4_0_8_8",
        38 => "MXFP4",
        _ => {
            return None;
        },
    };
    Some(quant.to_string())
}

/// The quantisation that a match of the quantisation pattern tells.
pub fn quant_from_match(found: &Option<Vec<Option<String>>>) -> (r: Option<String>)
    ensures
        text::opt_text(r) == quant_of_match(
            match *found {
                Some(v) => Some(matching::groups(v@)),
                None => None,
            },
        ),
{
    match found {
        Some(groups) => {
            if groups.len() > 1 {
                match &groups[1] {
                    Some(name) => Some(text::uppercase(name.as_str())),
                    None => None,
                }
            } else {
                None
            }
        },
        None => None,
    }
}

/// The quantisation that a file name tells.
pub fn infer_quant_from_filename(file_name: &str) -> (r: Option<String>)
    ensures
        text::opt_text(r) == inferred_quant(file_name@),
{
    quant_from_match(&matching::captures(QUANT_PATTERN, file_name))
}

/// The kind of model.
fn model_kind(
    expert_count: Option<u64>,
    block_count: Option<u64>,
    architecture: &Option<String>,
    file_name: &str,
) -> (r: ModelKind)
    ensures
        r == kind_of(expert_count, block_count, text::opt_text(*architecture), file_name@),
{
    let by_experts = match expert_count {
        Some(n) => n > 0,
        None => false,
    };
    let by_architecture = match architecture {
        Some(a) => text::contains(text::lowercase(a.as_str()).as_str(), "moe"),
        None => false,
    };
    if by_experts || text::contains(text::lowercase(file_name).as_str(), "moe") || by_architecture {
        ModelKind::Moe
    } else if architecture.is_some() || block_count.is_some() {
        ModelKind::Dense
    } else {
        ModelKind::Unknown
    }
}

/// Reads the description of the model at `path`, a canonical path, from the
/// first bytes of the file.
pub fn read_metadata(path: &str, file_size_bytes: u64, bytes: &Vec<u8>) -> (r: Result<
    GgufMetadata,
    GgufError,
>)
    ensures
        match parsed_file(bytes@) {
            Ok(f) => r matches Ok(m) && m.describes(path@, file_size_bytes, f),
            Err(e) => r == Err::<GgufMetadata, GgufError>(e),
        },
{
    let head = match read_head(bytes) {
        Ok(head) => head,
        Err(e) => {
            return Err(e);
        },
    };
    let metadata = head.metadata;
    let file_name = match path::file_name_of(path) {
        Some(name) => name,
        None => String::new(),
    };
    let architecture = string_value(&metadata, "general.architecture");
    let name = string_value(&metadata, "general.name");
    let size_label = string_value(&metadata, "general.size_label");
    let native_context = first_u64_with_suffix(&metadata, ".context_length");
    let block_count = first_u64_with_suffix(&metadata, ".block_count");
    let expert_count = first_u64_with_suffix(&metadata, ".expert_count");
    let expert_used_count = first_u64_with_suffix(&metadata, ".expert_used_count");
    let tokenizer_has_chat_template = has_chat_template(&metadata);
    let file_type = u64_value(&metadata, "general.file_type");
    let quant = match infer_quant_from_filename(file_name.as_str()) {
        Some(name) => Some(name),
        None => match file_type {
            Some(t) => quant_from_file_type(t),
            None => None,
        },
    };
    let kind = model_kind(expert_count, block_count, &architecture, file_name.as_str());
    Ok(
        GgufMetadata {
            path: path.to_string(),
            file_name,
            file_size_bytes,
            gguf_version: head.gguf_version,
            tensor_count: head.tensor_count,
            metadata_kv_count: head.metadata_kv_count,
            name,
            architecture,
            size_label,
            native_context,
            block_count,
            expert_count,
            expert_used_count,
            tokenizer_has_chat_template,
            quant,
            file_type,
            model_kind: kind,
            metadata,
        },
    )
}

// ---------------------------------------------------------------------------
// Identity and state directories

/// The FNV-1a hash of `b`, of 64 bits.
pub open spec fn fnv(b: Seq<u8>) -> u64
    decreases b.len(),
{
    if b.len() == 0 {
        0xcbf29ce484222325
    } else {
        (fnv(b.drop_last()) ^ (b.last() as u64)).wrapping_mul(0x100000001b3)
    }
}

/// The hash of `b` as 16 hexadecimal digits.
pub open spec fn hash_text(b: Seq<u8>) -> Seq<char> {
    text::hex(fnv(b) as nat, 16)
}

/// The hash of `value` as 16 hexadecimal digits.
fn stable_hash_bytes(value: &[u8]) -> (r: String)
    ensures
        r@ == hash_text(value@),
{
    let mut hash: u64 = 0xcbf29ce484222325;
    proof {
        assert(value@.take(0) =~= seq![]);
    }
    for i in 0..value.len()
        invariant
            hash == fnv(value@.take(i as int)),
    {
        proof {
            assert(value@.take(i + 1).drop_last() =~= value@.take(i as int));
        }
        hash = (hash ^ (value[i] as u64)).wrapping_mul(0x100000001b3);
    }
    proof {
        assert(value@.take(value@.len() as int) =~= value@);
    }
    text::hex_number(hash, 16)
}

/// The hash of the UTF-8 form of `value`.
pub fn stable_hash(value: &str) -> (r: String)
    ensures
        r@ == hash_text(vstd::utf8::encode_utf8(value@)),
{
    stable_hash_bytes(value.as_bytes())
}

/// The directory that holds a path, the current one where there is none.
pub open spec fn home_of(path: Seq<char>) -> Seq<char> {
    match path::parent(path) {
        Some(p) => p,
        None => "."@,
    }
}

/// The state directory of every model beside `path`.
pub open spec fn legacy_dir(path: Seq<char>) -> Seq<char> {
    path::child(home_of(path), ".llama-cpp-profiler"@)
}

/// The state directory of the model at `path`.
pub open spec fn state_dir(path: Seq<char>) -> Seq<char> {
    path::child(
        path::child(legacy_dir(path), "models"@),
        hash_text(vstd::utf8::encode_utf8(path)),
    )
}

/// Models whose paths have different hashes have different state directories.
pub proof fn state_is_isolated(a: Seq<char>, b: Seq<char>)
    requires
        fnv(vstd::utf8::encode_utf8(a)) != fnv(vstd::utf8::encode_utf8(b)),
    ensures
        state_dir(a) != state_dir(b),
{
    let x = fnv(vstd::utf8::encode_utf8(a)) as nat;
    let y = fnv(vstd::utf8::encode_utf8(b)) as nat;
    let s = state_dir(a);
    let t = state_dir(b);
    hex_length(x, 16);
    hex_length(y, 16);
    assert(s.skip(s.len() - 16) =~= text::hex(x, 16));
    assert(t.skip(t.len() - 16) =~= text::hex(y, 16));
    if s == t {
        assert(vstd::arithmetic::power::pow(16, 16) == 0x1_0000_0000_0000_0000) by {
            reveal_with_fuel(vstd::arithmetic::power::pow, 17);
        }
        text::hex_is_injective(x, y, 16);
    }
}

proof fn hex_length(n: nat, width: nat)
    ensures
        text::hex(n, width).len() == width,
    decreases width,
{
    if width > 0 {
        hex_length(n / 16, (width - 1) as nat);
    }
}

/// `s` without any number of suffixes `.gguf`.
pub open spec fn without_extension(s: Seq<char>) -> Seq<char>
    decreases s.len(),
{
    if text::ends_with(s, seq!['.', 'g', 'g', 'u', 'f']) {
        without_extension(s.take(s.len() - 5))
    } else {
        s
    }
}

/// The name to show: the model's own, or else that of the file.
pub open spec fn shown_name(m: MetadataView) -> Seq<char> {
    match m.name {
        Some(name) => name,
        None => without_extension(m.file_name),
    }
}

impl GgufMetadata {
    /// The name to show: the model's own, or else that of the file.
    pub fn display_name(&self) -> (r: String)
        ensures
            r@ == shown_name(self@),
    {
        match &self.name {
            Some(name) => name.clone(),
            None => {
                let chars = text::to_chars(self.file_name.as_str());
                let suffix = text::to_chars(".gguf");
                let mut n: usize = chars.len();
                proof {
                    reveal_strlit(".gguf");
                    assert(suffix@ =~= seq!['.', 'g', 'g', 'u', 'f']);
                    assert(chars@.take(n as int) =~= chars@);
                }
                while n >= 5 && text::matches_at(&chars, &suffix, n - 5)
                    invariant
                        n <= chars@.len(),
                        suffix@ == seq!['.', 'g', 'g', 'u', 'f'],
                        without_extension(chars@.take(n as int)) == without_extension(
                            self.file_name@,
                        ),
                    decreases n,
                {
                    proof {
                        let t = chars@.take(n as int);
                        assert(t.skip(t.len() - 5) =~= chars@.subrange(n - 5, n as int));
                        assert(t.take(t.len() - 5) =~= chars@.take(n - 5));
                    }
                    n = n - 5;
                }
                proof {
                    let t = chars@.take(n as int);
                    if n >= 5 {
                        assert(t.skip(t.len() - 5) =~= chars@.subrange(n - 5, n as int));
                    }
                    assert(chars@.subrange(0, n as int) =~= t);
                }
                text::slice_text(&chars, 0, n)
            },
        }
    }

    /// The context length to use: the native one, at most `cap`; 4096 where
    /// neither is known.
    pub fn context_or(&self, cap: Option<u64>) -> (r: u64)
        ensures
            r == (match (self.native_context, cap) {
                (Some(native), Some(max)) => if native <= max {
                    native
                } else {
                    max
                },
                (Some(native), None) => native,
                (None, Some(max)) => max,
                (None, None) => 4096,
            }),
    {
        match (self.native_context, cap) {
            (Some(native), Some(max)) => if native <= max {
                native
            } else {
                max
            },
            (Some(native), None) => native,
            (None, Some(max)) => max,
            (None, None) => 4096,
        }
    }

    /// The state directory of the model, whose canonical path is given.
    pub fn profiler_dir(&self, canonical_path: &str) -> (r: String)
        ensures
            r@ == state_dir(canonical_path@),
    {
        let legacy = self.legacy_profiler_dir(canonical_path);
        let models = path::join(legacy.as_str(), "models");
        path::join(models.as_str(), stable_hash(canonical_path).as_str())
    }

    /// The pre-beta state location. It is intentionally only used for
    /// diagnostics/legacy discovery, never for new writes or scoring.
    pub fn legacy_profiler_dir(&self, canonical_path: &str) -> (r: String)
        ensures
            r@ == legacy_dir(canonical_path@),
    {
        let home = match path::parent_of(canonical_path) {
            Some(home) => home,
            None => ".".to_string(),
        };
        path::join(home.as_str(), ".llama-cpp-profiler")
    }

    /// The identity of the model: its canonical path, its size, when it was
    /// last changed, and the hash of its metadata written as JSON.
    pub fn model_identity(
        &self,
        canonical_path: &str,
        modified_at: Option<Timestamp>,
        metadata_json: &Vec<u8>,
    ) -> (r: ModelIdentity)
        ensures
            r.version == MODEL_IDENTITY_VERSION,
            r.canonical_path@ == canonical_path@,
            r.file_size_bytes == self.file_size_bytes,
            r.modified_at == modified_at,
            r.metadata_hash@ == hash_text(metadata_json@),
    {
        ModelIdentity {
            version: MODEL_IDENTITY_VERSION,
            canonical_path: canonical_path.to_string(),
            file_size_bytes: self.file_size_bytes,
            modified_at,
            metadata_hash: stable_hash_bytes(metadata_json.as_slice()),
        }
    }
}

/// Two identities are the same: every part of them is.
pub open spec fn same_identity(a: IdentityView, b: IdentityView) -> bool {
    &&& a.version == b.version
    &&& path::same(a.canonical_path, b.canonical_path)
    &&& a.file_size_bytes == b.file_size_bytes
    &&& a.modified_at == b.modified_at
    &&& a.metadata_hash == b.metadata_hash
}

impl ModelIdentity {
    /// Whether two identities are the same.
    pub fn is_same(&self, other: &ModelIdentity) -> (r: bool)
        ensures
            r == same_identity(self@, other@),
    {
        let same_time = match (self.modified_at, other.modified_at) {
            (Some(a), Some(b)) => a == b,
            (None, None) => true,
            _ => false,
        };
        self.version == other.version && path::same_path(
            self.canonical_path.as_str(),
            other.canonical_path.as_str(),
        ) && self.file_size_bytes == other.file_size_bytes && same_time && text::same_text(
            self.metadata_hash.as_str(),
            other.metadata_hash.as_str(),
        )
    }
}

// ---------------------------------------------------------------------------
// Finding models

/// `path` names a model file: its extension says GGUF, and it is neither a
/// projector nor a draft model.
pub open spec fn model_file(path: Seq<char>) -> bool {
    match path::file_name(path) {
        None => false,
        Some(name) => {
            let lower = text::lowered(name);
            &&& text::ends_with(lower, ".gguf"@)
            &&& !text::occurs(lower, "mmproj"@)
            &&& !text::occurs(lower, "draft"@)
        },
    }
}

/// Whether `path` names a model file.
pub fn is_model_gguf(path: &str) -> (r: bool)
    ensures
        r == model_file(path@),
{
    match path::file_name_of(path) {
        None => false,
        Some(name) => {
            let lower = text::lowercase(name.as_str());
            text::has_suffix(lower.as_str(), ".gguf") && !text::contains(lower.as_str(), "mmproj")
                && !text::contains(lower.as_str(), "draft")
        },
    }
}

/// Whether a directory of this name is left out of a search for models.
pub fn is_skipped_directory(name: &str) -> (r: bool)
    ensures
        r == (name@ == ".llama-cpp-profiler"@ || name@ == ".git"@),
{
    text::same_text(name, ".llama-cpp-profiler") || text::same_text(name, ".git")
}

/// What a path leads to.
#[derive(Clone, Copy, Debug, PartialEq, Eq, Structural)]
pub enum PathKind {
    File,
    Directory,
    Missing,
}

/// Why a path gives no model.
#[derive(Clone, Copy, Debug, PartialEq, Eq, Structural)]
pub enum ResolveError {
    NotModel,
    DoesNotExist,
    NoModels,
}

impl ResolveError {
    /// Why a path gives no model.
    pub fn message(self, path: &str) -> (r: String)
        ensures
            r@ == (match self {
                ResolveError::NotModel => "not a model GGUF: "@,
                ResolveError::DoesNotExist => "path does not exist: "@,
                ResolveError::NoModels => "no model GGUF files found under "@,
            }) + path@,
    {
        let mut r = match self {
            ResolveError::NotModel => "not a model GGUF: ",
            ResolveError::DoesNotExist => "path does not exist: ",
            ResolveError::NoModels => "no model GGUF files found under ",
        }.to_string();
        r.append(path);
        r
    }
}

/// `i` is the first of the largest files.
pub open spec fn first_largest(sizes: Seq<u64>, i: int) -> bool {
    &&& 0 <= i < sizes.len()
    &&& forall|j: int| 0 <= j < sizes.len() ==> sizes[j] <= sizes[i]
    &&& forall|j: int| 0 <= j < i ==> sizes[j] < sizes[i]
}

/// The model that a path stands for: the file itself, or the first of the
/// largest model files found under a directory.
pub fn resolve_model_path(
    path: &str,
    kind: PathKind,
    found: &Vec<String>,
    sizes: &Vec<u64>,
) -> (r: Result<String, ResolveError>)
    requires
        found@.len() == sizes@.len(),
    ensures
        match kind {
            PathKind::File => if model_file(path@) {
                r matches Ok(p) && p@ == path@
            } else {
                r == Err::<String, ResolveError>(ResolveError::NotModel)
            },
            PathKind::Missing => r == Err::<String, ResolveError>(ResolveError::DoesNotExist),
            PathKind::Directory => if found@.len() == 0 {
                r == Err::<String, ResolveError>(ResolveError::NoModels)
            } else {
                r matches Ok(p) && exists|i: int| #[trigger]
                    first_largest(sizes@, i) && p@ == found@[i]@
            },
        },
{
    match kind {
        PathKind::File => if is_model_gguf(path) {
            Ok(path.to_string())
        } else {
            Err(ResolveError::NotModel)
        },
        PathKind::Missing => Err(ResolveError::DoesNotExist),
        PathKind::Directory => {
            if found.len() == 0 {
                return Err(ResolveError::NoModels);
            }
            let mut best: usize = 0;
            for i in 0..sizes.len()
                invariant
                    0 < sizes@.len(),
                    best < sizes@.len(),
                    best <= i,
                    forall|j: int| 0 <= j < i ==> sizes@[j] <= sizes@[best as int],
                    forall|j: int| 0 <= j < best ==> sizes@[j] < sizes@[best as int],
            {
                if sizes[i] > sizes[best] {
                    best = i;
                }
            }
            proof {
                assert(first_largest(sizes@, best as int));
            }
            Ok(found[best].clone())
        },
    }
}

/// The id of the first profile in the recommendations of a model.
pub open spec fn label_in(v: serde_json::Value) -> Option<Seq<char>> {
    match json::member_of(v, "profiles"@) {
        Some(profiles) => match json::json_content(profiles) {
            json::JsonView::Items(items) => if items.len() > 0 {
                match json::member_of(items[0], "id"@) {
                    Some(id) => match json::json_content(id) {
                        json::JsonView::Text(s) => Some(s),
                        _ => None,
                    },
                    None => None,
                }
            } else {
                None
            },
            _ => None,
        },
        None => None,
    }
}

/// The id of the first profile in the recommendations of a model.
pub fn first_profile_id(recommendations: &serde_json::Value) -> (r: Option<String>)
    ensures
        text::opt_text(r) == label_in(*recommendations),
{
    let profiles = match json::member(recommendations, "profiles") {
        Some(v) => v,
        None => {
            return None;
        },
    };
    let items = match json::as_items(&profiles) {
        Some(items) => items,
        None => {
            return None;
        },
    };
    if items.len() == 0 {
        return None;
    }
    match json::member(&items[0], "id") {
        Some(id) => json::as_text(&id),
        None => None,
    }
}

/// The label of the latest recommendation, from the text of the file that
/// holds the recommendations.
pub fn latest_recommendation_label(data: &str) -> (r: Option<String>)
    ensures
        text::opt_text(r) == (match json::json_parsed(data@) {
            Some(v) => label_in(v),
            None => None,
        }),
{
    match json::parse(data) {
        Ok(v) => first_profile_id(&v),
        Err(_) => None,
    }
}

/// The entry of a model with the label of its latest recommendation.
pub open spec fn scan_entry_of(model: MetadataView, label: Option<Seq<char>>) -> ScanView {
    ScanView {
        path: model.path,
        file_name: model.file_name,
        file_size_bytes: model.file_size_bytes,
        architecture: model.architecture,
        quant: model.quant,
        model_kind: model.model_kind,
        native_context: model.native_context,
        latest_recommendation: label,
    }
}

/// The entries of the models that a search found, in its order, each with the
/// label of its latest recommendation.
pub fn scan_entries(models: &Vec<GgufMetadata>, labels: &Vec<Option<String>>) -> (r: Vec<ScanEntry>)
    requires
        models@.len() == labels@.len(),
    ensures
        r@.len() == models@.len(),
        forall|i: int|
            0 <= i < r@.len() ==> (#[trigger] r@[i])@ == scan_entry_of(
                models@[i]@,
                text::opt_text(labels@[i]),
            ),
{
    let mut r: Vec<ScanEntry> = Vec::new();
    for i in 0..models.len()
        invariant
            models@.len() == labels@.len(),
            r@.len() == i,
            forall|j: int|
                0 <= j < i ==> (#[trigger] r@[j])@ == scan_entry_of(
                    models@[j]@,
                    text::opt_text(labels@[j]),
                ),
    {
        let model = &models[i];
        r.push(
            ScanEntry {
                path: model.path.clone(),
                file_name: model.file_name.clone(),
                file_size_bytes: model.file_size_bytes,
                architecture: text::copy_opt(&model.architecture),
                quant: text::copy_opt(&model.quant),
                model_kind: model.model_kind,
                native_context: model.native_context,
                latest_recommendation: text::copy_opt(&labels[i]),
            },
        );
    }
    r
}

// ---------------------------------------------------------------------------
// Sizes

/// `n / d` to the nearest whole number, to the even one of two equally near.
pub open spec fn rounded(n: nat, d: nat) -> nat {
    let q = n / d;
    let r = n % d;
    if 2 * r > d || (2 * r == d && q % 2 == 1) {
        q + 1
    } else {
        q
    }
}

/// The distance between neighbouring double-precision numbers around a whole
/// number `n`, from `d` up: the least power of two that leaves 53 bits.
pub open spec fn spacing(n: nat, d: nat) -> nat
    decreases (if d < 0x1000 { 0x1000 - d } else { 0 }),
{
    if d == 0 || d >= 0x1000 || n / d < 0x20_0000_0000_0000 {
        d
    } else {
        spacing(n, 2 * d)
    }
}

/// The double-precision number nearest to `n`.
pub open spec fn nearest_double(n: nat) -> nat {
    rounded(n, spacing(n, 1)) * spacing(n, 1)
}

/// A size in bytes below 1024, or else in the largest unit up to TiB that it
/// fills, with one decimal place.
pub open spec fn bytes_text(bytes: nat) -> Seq<char> {
    let n = nearest_double(bytes);
    if n < 0x400 {
        text::decimal(bytes) + " B"@
    } else if n < 0x10_0000 {
        tenths_text(rounded(10 * n, 0x400)) + " KiB"@
    } else if n < 0x4000_0000 {
        tenths_text(rounded(10 * n, 0x10_0000)) + " MiB"@
    } else if n < 0x100_0000_0000 {
        tenths_text(rounded(10 * n, 0x4000_0000)) + " GiB"@
    } else {
        tenths_text(rounded(10 * n, 0x100_0000_0000)) + " TiB"@
    }
}

/// A number of tenths, in decimal notation.
pub open spec fn tenths_text(tenths: nat) -> Seq<char> {
    text::decimal(tenths / 10) + "."@ + text::decimal(tenths % 10)
}

/// `n / d` to the nearest whole number.
fn round_ratio(n: u128, d: u128) -> (r: u128)
    requires
        0 < d <= 0x100_0000_0000,
    ensures
        r == rounded(n as nat, d as nat),
        r <= n / d + 1,
{
    let q: u128 = n / d;
    let rest: u128 = n % d;
    if 2 * rest > d || (2 * rest == d && q % 2 == 1) {
        proof {
            assert(n as int / d as int * d as int <= n) by (nonlinear_arith)
                requires
                    d > 0,
            ;
            if d == 1 {
                assert(rest == 0);
            }
            assert(q < u128::MAX) by (nonlinear_arith)
                requires
                    q * d <= n,
                    d >= 2,
                    n <= u128::MAX,
            ;
        }
        q + 1
    } else {
        q
    }
}

/// A number of tenths, in decimal notation.
fn tenths(n: u64) -> (r: String)
    ensures
        r@ == tenths_text(n as nat),
{
    let mut r = text::number(n / 10);
    r.append(".");
    r.append(text::number(n % 10).as_str());
    r
}

/// A size in bytes, for people.
pub fn format_bytes(bytes: u64) -> (r: String)
    ensures
        r@ == bytes_text(bytes as nat),
{
    let mut step: u128 = 1;
    while step < 0x1000 && bytes as u128 / step >= 0x20_0000_0000_0000
        invariant
            1 <= step <= 0x1000,
            spacing(bytes as nat, step as nat) == spacing(bytes as nat, 1),
            step < 0x1000 ==> step <= 0x800,
            step == 1 || step == 2 || step == 4 || step == 8 || step == 0x10 || step == 0x20 || step
                == 0x40 || step == 0x80 || step == 0x100 || step == 0x200 || step == 0x400 || step
                == 0x800 || step == 0x1000,
        decreases 0x1000 - step,
    {
        step = 2 * step;
    }
    let multiple = round_ratio(bytes as u128, step);
    proof {
        assert(bytes as int / step as int * step as int <= bytes) by (nonlinear_arith)
            requires
                step > 0,
        ;
        assert(multiple * step <= bytes + step) by (nonlinear_arith)
            requires
                multiple <= bytes as int / step as int + 1,
                bytes as int / step as int * step as int <= bytes,
                step > 0,
        ;
    }
    let n: u128 = multiple * step;
    proof {
        assert(n == nearest_double(bytes as nat));
    }
    if n < 0x400 {
        let mut r = text::number(bytes);
        r.append(" B");
        return r;
    }
    let (unit, name) = if n < 0x10_0000 {
        (0x400u128, " KiB")
    } else if n < 0x4000_0000 {
        (0x10_0000u128, " MiB")
    } else if n < 0x100_0000_0000 {
        (0x4000_0000u128, " GiB")
    } else {
        (0x100_0000_0000u128, " TiB")
    };
    let value = round_ratio(10 * n, unit);
    let mut r = tenths(value as u64);
    r.append(name);
    r
}

} // verus!
