//! Where recorded bodies live (in memory or in a file) and the body store's
//! configuration.
use vstd::prelude::*;
use crate::codec::{lossy_text, utf8_lossy};
use crate::text::{str_chars, to_owned_string, push_str, push_char, string_from_chars, slice_chars};

verus! {

/// A stored body: inline text, a whole file, or a byte range of a file.
#[derive(Debug, Clone)]
pub enum BodyRef {
    Inline { data: String },
    File { path: String, size: usize },
    FileRange { path: String, offset: u64, size: usize },
}

impl BodyRef {
    /// Size of the body in bytes.
    pub fn size(&self) -> (n: usize)
        ensures
            n == match self {
                BodyRef::Inline { data } => vstd::utf8::encode_utf8(data@).len(),
                BodyRef::File { size, .. } => *size as nat,
                BodyRef::FileRange { size, .. } => *size as nat,
            },
    {
        match self {
            BodyRef::Inline { data } => data.as_str().as_bytes().len(),
            BodyRef::File { size, .. } => *size,
            BodyRef::FileRange { size, .. } => *size,
        }
    }

    /// Whether the body lives in a file.
    pub fn is_file(&self) -> (b: bool)
        ensures
            b == !(self is Inline),
    {
        match self {
            BodyRef::Inline { .. } => false,
            _ => true,
        }
    }
}

/// Changes to the body store's settings; absent fields stay as they are.
#[derive(Debug, Clone, Copy, PartialEq, Eq, Structural)]
pub struct BodyStoreConfigUpdate {
    pub max_memory_size: Option<usize>,
    pub retention_days: Option<u64>,
    pub stream_flush_bytes: Option<usize>,
    pub stream_flush_interval_ms: Option<u64>,
}

impl BodyStoreConfigUpdate {
    pub fn default() -> (u: BodyStoreConfigUpdate)
        ensures
            u.max_memory_size is None && u.retention_days is None && u.stream_flush_bytes is None
                && u.stream_flush_interval_ms is None,
    {
        BodyStoreConfigUpdate {
            max_memory_size: None,
            retention_days: None,
            stream_flush_bytes: None,
            stream_flush_interval_ms: None,
        }
    }
}

/// The body store: where files go and how bodies are kept.
#[derive(Debug)]
pub struct BodyStore {
    pub temp_dir: String,
    /// Bodies up to this size are kept inline.
    pub max_memory_size: usize,
    pub retention_days: u64,
    pub stream_flush_bytes: usize,
    pub stream_flush_interval_ms: u64,
}

pub open spec fn pick<T>(o: Option<T>, d: T) -> T {
    match o {
        Some(v) => v,
        None => d,
    }
}

impl BodyStore {
    pub fn new(
        temp_dir: String,
        max_memory_size: usize,
        retention_days: u64,
        stream_flush_bytes: usize,
        stream_flush_interval_ms: u64,
    ) -> (s: BodyStore)
        ensures
            s.temp_dir == temp_dir,
            s.max_memory_size == max_memory_size,
            s.retention_days == retention_days,
            s.stream_flush_bytes == stream_flush_bytes,
            s.stream_flush_interval_ms == stream_flush_interval_ms,
    {
        BodyStore { temp_dir, max_memory_size, retention_days, stream_flush_bytes, stream_flush_interval_ms }
    }

    /// Applies the fields that the update sets.
    pub fn update_config(&mut self, update: BodyStoreConfigUpdate)
        ensures
            final(self).temp_dir == old(self).temp_dir,
            final(self).max_memory_size == pick(update.max_memory_size, old(self).max_memory_size),
            final(self).retention_days == pick(update.retention_days, old(self).retention_days),
            final(self).stream_flush_bytes == pick(update.stream_flush_bytes, old(self).stream_flush_bytes),
            final(self).stream_flush_interval_ms == pick(update.stream_flush_interval_ms, old(self).stream_flush_interval_ms),
    {
        if let Some(v) = update.max_memory_size {
            self.max_memory_size = v;
        }
        if let Some(v) = update.retention_days {
            self.retention_days = v;
        }
        if let Some(v) = update.stream_flush_bytes {
            self.stream_flush_bytes = v;
        }
        if let Some(v) = update.stream_flush_interval_ms {
            self.stream_flush_interval_ms = v;
        }
    }

    /// Where a body of `len` bytes goes: nowhere when empty, inline up to the
    /// memory limit, else to a file.
    pub fn placement(&self, len: usize) -> (p: BodyPlacement)
        ensures
            p == (if len == 0 {
                BodyPlacement::Nothing
            } else if len <= self.max_memory_size {
                BodyPlacement::Inline
            } else {
                BodyPlacement::File
            }),
    {
        if len == 0 {
            BodyPlacement::Nothing
        } else if len <= self.max_memory_size {
            BodyPlacement::Inline
        } else {
            BodyPlacement::File
        }
    }

    /// The statistics the store reports, given what a scan of its directory found.
    pub fn stats(&self, file_count: usize, total_size: u64) -> (s: BodyStoreStats)
        ensures
            s.file_count == file_count,
            s.total_size == total_size,
            s.temp_dir@ == self.temp_dir@,
            s.max_memory_size == self.max_memory_size,
            s.retention_days == self.retention_days,
    {
        BodyStoreStats {
            file_count,
            total_size,
            temp_dir: self.temp_dir.clone(),
            max_memory_size: self.max_memory_size,
            retention_days: self.retention_days,
        }
    }
}

/// A body kept inline: its bytes as text, invalid UTF-8 replaced.
pub fn inline_body(data: &[u8]) -> (r: BodyRef)
    ensures
        r matches BodyRef::Inline { data: t } && t@ == lossy_text(data@),
{
    BodyRef::Inline { data: utf8_lossy(data) }
}

/// Where a body is put.
#[derive(Debug, Clone, Copy, PartialEq, Eq, Structural)]
pub enum BodyPlacement {
    Nothing,
    Inline,
    File,
}

/// What the body store reports about itself.
#[derive(Debug, Clone)]
pub struct BodyStoreStats {
    pub file_count: usize,
    pub total_size: u64,
    pub temp_dir: String,
    pub max_memory_size: usize,
    pub retention_days: u64,
}

/// The file name of a body: `{id}_{kind}`.
pub fn body_file_name(id: &str, kind: &str) -> (s: String)
    ensures
        s@ == id@ + seq!['_'] + kind@,
{
    let mut s = to_owned_string(id);
    push_char(&mut s, '_');
    push_str(&mut s, kind);
    s
}

/// Position of the last occurrence of `c`.
pub open spec fn last_index_of(s: Seq<char>, c: char) -> Option<int>
    decreases s.len(),
{
    if s.len() == 0 {
        None
    } else if s.last() == c {
        Some(s.len() - 1)
    } else {
        last_index_of(s.drop_last(), c)
    }
}

/// The record id that a body file's stem belongs to: the part before the
/// last `_`, or the whole stem.
pub open spec fn base_id_spec(stem: Seq<char>) -> Seq<char> {
    match last_index_of(stem, '_') {
        Some(i) => stem.take(i),
        None => stem,
    }
}

pub fn base_id_of(stem: &str) -> (r: String)
    ensures
        r@ == base_id_spec(stem@),
{
    let v = str_chars(stem);
    let mut i: usize = v.len();
    assert(v@.take(v@.len() as int) =~= v@);
    while i > 0 && v[i - 1] != '_'
        invariant
            i <= v@.len(),
            last_index_of(v@, '_') == last_index_of(v@.take(i as int), '_'),
        decreases i,
    {
        proof {
            assert(v@.take(i as int).drop_last() =~= v@.take(i - 1));
        }
        i = i - 1;
    }
    proof {
        assert(v@.take(v@.len() as int) =~= v@);
    }
    if i == 0 {
        proof {
            assert(v@.take(0) =~= Seq::<char>::empty());
        }
        string_from_chars(&v)
    } else {
        let p = slice_chars(&v, 0, i - 1);
        assert(p@ =~= v@.take(i - 1));
        string_from_chars(&p)
    }
}

/// Whether a file whose age is `age_secs` seconds and `age_nanos`
/// nanoseconds is past a retention of `retention_days` days.
pub fn is_expired(age_secs: u64, age_nanos: u32, retention_days: u64) -> (b: bool)
    requires
        retention_days * 86400 <= u64::MAX,
    ensures
        b == (age_secs > retention_days * 86400 || (age_secs == retention_days * 86400 && age_nanos > 0)),
{
    let limit = retention_days * 86400;
    age_secs > limit || (age_secs == limit && age_nanos > 0)
}

/// Whether a body stream writer flushes its buffer: when it holds at least
/// `flush_bytes`, or `flush_interval_ms` passed since the last flush.
pub fn should_flush(buffered: usize, flush_bytes: usize, elapsed_ms: u64, flush_interval_ms: u64) -> (b: bool)
    ensures
        b == (buffered >= flush_bytes || elapsed_ms >= flush_interval_ms),
{
    buffered >= flush_bytes || elapsed_ms >= flush_interval_ms
}

} // verus!
