//! KV cache for a single sequence within a single transformer layer: one
//! contiguous buffer for all tokens' keys and one for all values, each
//! `max_tokens_per_seq * token_width` elements once initialized. Elements
//! are the bit patterns of the `f32` activations (`f32::to_bits`), which
//! the cache only stores and copies.

use vstd::prelude::*;
use vstd::slice::slice_to_vec;
use crate::fmt::{decimal, push_decimal};

verus! {

pub const DEFAULT_MAX_TOKENS_PER_SEQ: usize = 8192;
pub const DEFAULT_NUM_HEADS: usize = 4;
pub const DEFAULT_HIDDEN_DIM_PER_HEAD: usize = 64;

/// Shape of a layer's KV cache.
#[derive(Clone, Copy, Debug, PartialEq, Eq, Structural)]
pub struct KVCacheConfig {
    pub max_tokens_per_seq: usize,
    pub num_heads: usize,
    pub hidden_dim_per_head: usize,
}

impl KVCacheConfig {
    /// Elements one token's keys (or values) occupy.
    pub open spec fn width(&self) -> nat {
        (self.num_heads * self.hidden_dim_per_head) as nat
    }

    /// Elements each whole buffer holds once allocated.
    pub open spec fn capacity(&self) -> nat {
        (self.max_tokens_per_seq as nat) * self.width()
    }

    /// The buffers' sizes fit the address space.
    pub open spec fn fits(&self) -> bool {
        self.width() <= usize::MAX && self.capacity() <= usize::MAX
    }

    /// Number of elements one token's keys (or values) occupy.
    pub fn token_width(&self) -> (w: usize)
        requires
            self.num_heads * self.hidden_dim_per_head <= usize::MAX,
        ensures
            w == self.width(),
    {
        self.num_heads * self.hidden_dim_per_head
    }
}

impl Default for KVCacheConfig {
    fn default() -> (c: Self)
        ensures
            c == (KVCacheConfig {
                max_tokens_per_seq: DEFAULT_MAX_TOKENS_PER_SEQ,
                num_heads: DEFAULT_NUM_HEADS,
                hidden_dim_per_head: DEFAULT_HIDDEN_DIM_PER_HEAD,
            }),
    {
        KVCacheConfig {
            max_tokens_per_seq: DEFAULT_MAX_TOKENS_PER_SEQ,
            num_heads: DEFAULT_NUM_HEADS,
            hidden_dim_per_head: DEFAULT_HIDDEN_DIM_PER_HEAD,
        }
    }
}

/// Owned copy of one token's cached key and value vectors.
#[derive(Clone, Debug, PartialEq, Eq)]
pub struct KVCacheEntry {
    pub keys: Vec<u32>,
    pub values: Vec<u32>,
}

/// Abstract state of a cache.
pub struct KvView {
    pub config: KVCacheConfig,
    /// Tokens marked valid so far.
    pub current_len: nat,
    /// Key buffer: empty before the first allocation.
    pub keys: Seq<u32>,
    /// Value buffer, the same length as the key buffer.
    pub values: Seq<u32>,
}

/// The `w` elements of token `t` in buffer `b`.
pub open spec fn token_slice(b: Seq<u32>, t: nat, w: nat) -> Seq<u32> {
    b.subrange((t * w) as int, (t * w + w) as int)
}

/// Buffer `b` with token `t`'s elements replaced by `data`.
pub open spec fn with_token(b: Seq<u32>, t: nat, w: nat, data: Seq<u32>) -> Seq<u32> {
    b.subrange(0, (t * w) as int) + data + b.subrange((t * w + w) as int, b.len() as int)
}

/// The cache after `initialize(seq_len)` succeeds: buffers allocated (as
/// zeros) if they were empty, and at least `min(seq_len, max)` tokens
/// valid.
pub open spec fn initialized(v: KvView, seq_len: nat) -> KvView {
    let bounded = if seq_len < v.config.max_tokens_per_seq { seq_len } else { v.config.max_tokens_per_seq as nat };
    let fresh = v.keys.len() == 0;
    KvView {
        config: v.config,
        current_len: if v.current_len >= bounded { v.current_len } else { bounded },
        keys: if fresh { Seq::new(v.config.capacity(), |i: int| 0u32) } else { v.keys },
        values: if fresh { Seq::new(v.config.capacity(), |i: int| 0u32) } else { v.values },
    }
}

/// The cache after `write_kv(t, keys, values)` succeeds.
pub open spec fn written(v: KvView, t: nat, keys: Seq<u32>, values: Seq<u32>) -> KvView {
    let w = v.config.width();
    KvView {
        config: v.config,
        current_len: if v.current_len >= t + 1 { v.current_len } else { t + 1 },
        keys: with_token(v.keys, t, w, keys),
        values: with_token(v.values, t, w, values),
    }
}

/// Error text of `write_kv` for the given input, if it refuses it.
pub open spec fn write_error(v: KvView, t: nat, keys_len: nat, values_len: nat) -> Option<Seq<char>> {
    let w = v.config.width();
    if keys_len != values_len {
        Some("keys/values length mismatch"@)
    } else if keys_len != w {
        Some("expected "@ + decimal(w) + " elements per token (num_heads * hidden_dim_per_head), got "@ + decimal(keys_len))
    } else if t >= v.config.max_tokens_per_seq {
        Some("token index "@ + decimal(t) + " out of bounds (max "@ + decimal(v.config.max_tokens_per_seq as nat) + ")"@)
    } else if v.keys.len() == 0 {
        Some("cache not initialized \u{2014} call initialize() first"@)
    } else {
        None
    }
}

/// KV cache of one sequence in one layer.
#[derive(Debug)]
pub struct LayerKvCache {
    pub config: KVCacheConfig,
    keys: Vec<u32>,
    values: Vec<u32>,
    current_len: usize,
}

impl View for LayerKvCache {
    type V = KvView;

    closed spec fn view(&self) -> KvView {
        KvView {
            config: self.config,
            current_len: self.current_len as nat,
            keys: self.keys@,
            values: self.values@,
        }
    }
}

impl LayerKvCache {
    /// The buffers are empty or exactly sized for the configuration, agree
    /// in length, and every valid token lies inside them.
    pub closed spec fn wf(&self) -> bool {
        &&& self.config.fits()
        &&& self.keys@.len() == self.values@.len()
        &&& (self.keys@.len() == 0 || self.keys@.len() == self.config.capacity())
        &&& self.current_len <= self.config.max_tokens_per_seq
        &&& (self.current_len > 0 ==> self.keys@.len() == self.config.capacity())
    }

    /// An empty cache; the buffers are allocated by `initialize`.
    pub fn new(config: KVCacheConfig) -> (c: LayerKvCache)
        requires
            config.fits(),
        ensures
            c.wf(),
            c@ == (KvView { config, current_len: 0, keys: Seq::empty(), values: Seq::empty() }),
    {
        LayerKvCache { config, keys: Vec::new(), values: Vec::new(), current_len: 0 }
    }

    /// Number of valid tokens.
    pub fn len(&self) -> (n: usize)
        ensures
            n == self@.current_len,
    {
        self.current_len
    }

    /// No token is valid yet.
    pub fn is_empty(&self) -> (b: bool)
        ensures
            b == (self@.current_len == 0),
    {
        self.current_len == 0
    }

    /// Allocate the buffers on the first call and mark the first `seq_len`
    /// tokens (at most the configured maximum) valid; earlier writes are
    /// kept. Refuses a zero length.
    pub fn initialize(&mut self, seq_len: usize) -> (r: Result<(), String>)
        requires
            old(self).wf(),
        ensures
            final(self).wf(),
            seq_len == 0 ==> (r matches Err(m) && m@ == "sequence length must be greater than zero"@
                && final(self)@ == old(self)@),
            seq_len > 0 ==> (r is Ok && final(self)@ == initialized(old(self)@, seq_len as nat)),
    {
        if seq_len == 0 {
            return Err("sequence length must be greater than zero".to_owned());
        }
        let bounded = if seq_len < self.config.max_tokens_per_seq { seq_len } else { self.config.max_tokens_per_seq };
        if self.keys.len() == 0 {
            let capacity = self.config.max_tokens_per_seq * self.config.token_width();
            self.keys = zeros(capacity);
            self.values = zeros(capacity);
        }
        if self.current_len < bounded {
            self.current_len = bounded;
        }
        proof {
            assert(self@.keys =~= initialized(old(self)@, seq_len as nat).keys);
            assert(self@.values =~= initialized(old(self)@, seq_len as nat).values);
        }
        Ok(())
    }
}

impl LayerKvCache {
    /// Write one token's key and value vectors at `token_idx`. Refused,
    /// leaving the cache unchanged: vectors of different lengths, vectors
    /// not one token wide, an index past the configured maximum, or a cache
    /// not yet initialized (checked in that order).
    pub fn write_kv(&mut self, token_idx: usize, keys: &[u32], values: &[u32]) -> (r: Result<(), String>)
        requires
            old(self).wf(),
        ensures
            final(self).wf(),
            write_error(old(self)@, token_idx as nat, keys@.len(), values@.len()) matches Some(m) ==> (r matches Err(e)
                && e@ == m && final(self)@ == old(self)@),
            write_error(old(self)@, token_idx as nat, keys@.len(), values@.len()) is None ==> (r is Ok
                && final(self)@ == written(old(self)@, token_idx as nat, keys@, values@)),
    {
        if keys.len() != values.len() {
            return Err("keys/values length mismatch".to_owned());
        }
        let width = self.config.token_width();
        if keys.len() != width {
            let mut m = "expected ".to_owned();
            push_decimal(&mut m, width as u64);
            m.append(" elements per token (num_heads * hidden_dim_per_head), got ");
            push_decimal(&mut m, keys.len() as u64);
            return Err(m);
        }
        if token_idx >= self.config.max_tokens_per_seq {
            let mut m = "token index ".to_owned();
            push_decimal(&mut m, token_idx as u64);
            m.append(" out of bounds (max ");
            push_decimal(&mut m, self.config.max_tokens_per_seq as u64);
            m.append(")");
            return Err(m);
        }
        if self.keys.len() == 0 {
            return Err("cache not initialized \u{2014} call initialize() first".to_owned());
        }
        proof {
            lemma_token_in_buffer(token_idx as nat, self.config.max_tokens_per_seq as nat, width as nat);
        }
        let start = token_idx * width;
        copy_into(&mut self.keys, start, keys);
        copy_into(&mut self.values, start, values);
        if self.current_len < token_idx + 1 {
            self.current_len = token_idx + 1;
        }
        Ok(())
    }

    /// Copy of one valid token's key and value vectors; refused for a token
    /// at or past the valid length.
    pub fn read_kv(&self, token_idx: usize) -> (r: Result<KVCacheEntry, String>)
        requires
            self.wf(),
        ensures
            token_idx >= self@.current_len ==> (r matches Err(m) && m@ == "token index "@ + decimal(token_idx as nat)
                + " out of bounds (current length "@ + decimal(self@.current_len) + ")"@),
            token_idx < self@.current_len ==> (r matches Ok(e)
                && e.keys@ == token_slice(self@.keys, token_idx as nat, self@.config.width())
                && e.values@ == token_slice(self@.values, token_idx as nat, self@.config.width())),
    {
        if token_idx >= self.current_len {
            let mut m = "token index ".to_owned();
            push_decimal(&mut m, token_idx as u64);
            m.append(" out of bounds (current length ");
            push_decimal(&mut m, self.current_len as u64);
            m.append(")");
            return Err(m);
        }
        let width = self.config.token_width();
        proof {
            lemma_token_in_buffer(token_idx as nat, self.config.max_tokens_per_seq as nat, width as nat);
        }
        let start = token_idx * width;
        let keys = slice_to_vec(&self.keys.as_slice()[start..start + width]);
        let values = slice_to_vec(&self.values.as_slice()[start..start + width]);
        Ok(KVCacheEntry { keys, values })
    }

    /// Keys and values of the valid tokens `start_token..end_token`, as two
    /// contiguous vectors. Refused when the range is reversed or reaches
    /// past the valid length.
    pub fn read_range(&self, start_token: usize, end_token: usize) -> (r: Result<(Vec<u32>, Vec<u32>), String>)
        requires
            self.wf(),
        ensures
            start_token > end_token ==> (r matches Err(m) && m@ == "start_token must be <= end_token"@),
            start_token <= end_token && end_token > self@.current_len ==> (r matches Err(m) && m@ == "end_token "@
                + decimal(end_token as nat) + " exceeds current length "@ + decimal(self@.current_len)),
            start_token <= end_token <= self@.current_len ==> (r matches Ok(kv)
                && kv.0@ == self@.keys.subrange(start_token * self@.config.width(), end_token * self@.config.width())
                && kv.1@ == self@.values.subrange(start_token * self@.config.width(), end_token * self@.config.width())),
    {
        if start_token > end_token {
            return Err("start_token must be <= end_token".to_owned());
        }
        let width = self.config.token_width();
        if end_token > self.current_len {
            let mut m = "end_token ".to_owned();
            push_decimal(&mut m, end_token as u64);
            m.append(" exceeds current length ");
            push_decimal(&mut m, self.current_len as u64);
            return Err(m);
        }
        proof {
            lemma_range_in_buffer(start_token as nat, end_token as nat, self.config.max_tokens_per_seq as nat, width as nat);
            if end_token == 0 {
                assert(end_token * width == 0);
                assert(start_token * width == 0);
            }
        }
        let start = start_token * width;
        let end = end_token * width;
        let keys = slice_to_vec(&self.keys.as_slice()[start..end]);
        let values = slice_to_vec(&self.values.as_slice()[start..end]);
        Ok((keys, values))
    }
}

/// Token `t` below the maximum lies inside a buffer of `max * w` elements.
proof fn lemma_token_in_buffer(t: nat, max: nat, w: nat)
    requires
        t < max,
    ensures
        t * w + w <= max * w,
{
    assert(t * w + w <= max * w) by (nonlinear_arith)
        requires
            t < max,
    ;
}

/// Tokens `a..b` within the first `max` lie inside a buffer of `max * w`
/// elements.
proof fn lemma_range_in_buffer(a: nat, b: nat, max: nat, w: nat)
    requires
        a <= b <= max,
    ensures
        a * w <= b * w <= max * w,
{
    assert(a * w <= b * w <= max * w) by (nonlinear_arith)
        requires
            a <= b <= max,
    ;
}

/// Overwrite `buf[start..start + data.len()]` with `data`.
fn copy_into(buf: &mut Vec<u32>, start: usize, data: &[u32])
    requires
        start + data@.len() <= old(buf)@.len(),
    ensures
        final(buf)@ == old(buf)@.subrange(0, start as int) + data@
            + old(buf)@.subrange(start + data@.len(), old(buf)@.len() as int),
{
    let ghost b0 = buf@;
    let blen = buf.len();
    let mut j: usize = 0;
    while j < data.len()
        invariant
            j <= data@.len(),
            blen == b0.len(),
            start + data@.len() <= blen,
            buf@.len() == b0.len(),
            forall|k: int| 0 <= k < start ==> buf@[k] == b0[k],
            forall|k: int| 0 <= k < j ==> buf@[start + k] == data@[k],
            forall|k: int| start + j <= k < b0.len() ==> buf@[k] == b0[k],
        decreases data@.len() - j,
    {
        buf.set(start + j, data[j]);
        j += 1;
    }
    proof {
        assert(buf@ =~= b0.subrange(0, start as int) + data@ + b0.subrange(start + data@.len(), b0.len() as int));
    }
}

/// Reading a token back gives what was last written to it; writing one
/// token leaves every other token's data as it was.
pub proof fn lemma_read_after_write(v: KvView, t: nat, keys: Seq<u32>, values: Seq<u32>, u: nat)
    requires
        keys.len() == v.config.width(),
        values.len() == v.config.width(),
        t < v.config.max_tokens_per_seq,
        u < v.config.max_tokens_per_seq,
        v.keys.len() == v.config.capacity(),
        v.values.len() == v.config.capacity(),
    ensures
        token_slice(written(v, t, keys, values).keys, t, v.config.width()) == keys,
        token_slice(written(v, t, keys, values).values, t, v.config.width()) == values,
        u != t ==> token_slice(written(v, t, keys, values).keys, u, v.config.width()) == token_slice(v.keys, u, v.config.width()),
        u != t ==> token_slice(written(v, t, keys, values).values, u, v.config.width()) == token_slice(v.values, u, v.config.width()),
        written(v, t, keys, values).current_len > t,
{
    let w = v.config.width();
    let max = v.config.max_tokens_per_seq as nat;
    lemma_token_in_buffer(t, max, w);
    lemma_token_in_buffer(u, max, w);
    let nk = written(v, t, keys, values).keys;
    let nv = written(v, t, keys, values).values;
    assert(token_slice(nk, t, w) =~= keys);
    assert(token_slice(nv, t, w) =~= values);
    if u < t {
        assert(u * w + w <= t * w) by (nonlinear_arith)
            requires
                u < t,
        ;
        assert(token_slice(nk, u, w) =~= token_slice(v.keys, u, w));
        assert(token_slice(nv, u, w) =~= token_slice(v.values, u, w));
    } else if u > t {
        assert(t * w + w <= u * w) by (nonlinear_arith)
            requires
                t < u,
        ;
        assert(token_slice(nk, u, w) =~= token_slice(v.keys, u, w));
        assert(token_slice(nv, u, w) =~= token_slice(v.values, u, w));
    }
}

/// Initializing again (for instance to grow the valid length) keeps every
/// written element and never shrinks the valid length.
pub proof fn lemma_initialize_keeps_data(v: KvView, seq_len: nat)
    requires
        v.keys.len() > 0,
    ensures
        initialized(v, seq_len).keys == v.keys,
        initialized(v, seq_len).values == v.values,
        initialized(v, seq_len).current_len >= v.current_len,
{
}

impl Default for LayerKvCache {
    fn default() -> (c: Self)
        ensures
            c.wf(),
            c@.config == (KVCacheConfig {
                max_tokens_per_seq: DEFAULT_MAX_TOKENS_PER_SEQ,
                num_heads: DEFAULT_NUM_HEADS,
                hidden_dim_per_head: DEFAULT_HIDDEN_DIM_PER_HEAD,
            }),
            c@.current_len == 0,
            c@.keys.len() == 0,
    {
        let config = KVCacheConfig::default();
        proof {
            assert(config.width() == 256) by (nonlinear_arith)
                requires
                    config.num_heads == 4,
                    config.hidden_dim_per_head == 64,
            ;
            assert(config.capacity() == 2097152) by (nonlinear_arith)
                requires
                    config.max_tokens_per_seq == 8192,
                    config.width() == 256,
            ;
        }
        LayerKvCache::new(config)
    }
}

/// A vector of `n` zeros.
fn zeros(n: usize) -> (v: Vec<u32>)
    ensures
        v@ == Seq::new(n as nat, |i: int| 0u32),
{
    let mut v: Vec<u32> = Vec::new();
    let mut i: usize = 0;
    while i < n
        invariant
            i <= n,
            v@ == Seq::new(i as nat, |k: int| 0u32),
        decreases n - i,
    {
        v.push(0u32);
        i += 1;
        proof {
            assert(v@ =~= Seq::new(i as nat, |k: int| 0u32));
        }
    }
    v
}

} // verus!
