//! Reading the text that hardware probes print: lines, fields and the
//! values the profile takes from them. Running the probes is the caller's
//! business; these functions only read what came back.

use vstd::prelude::*;
use crate::host::GpuBackend;
use crate::text::{ascii_lower_chars, is_white_space, push_char, to_ascii_lowercase, trim, trimmed, white_space};
use vstd::string::StringExecFns;

verus! {

/// The pieces of `s` between occurrences of `c`, as `str::split` yields
/// them (always at least one piece).
pub open spec fn split_on(s: Seq<char>, c: char) -> Seq<Seq<char>>
    decreases s.len(),
{
    if s.len() == 0 {
        seq![Seq::<char>::empty()]
    } else {
        let p = split_on(s.drop_last(), c);
        if s.last() == c {
            p.push(Seq::<char>::empty())
        } else {
            p.update(p.len() - 1, p.last().push(s.last()))
        }
    }
}

/// `split_on` never yields an empty list.
pub proof fn lemma_split_on_nonempty(s: Seq<char>, c: char)
    ensures
        split_on(s, c).len() >= 1,
    decreases s.len(),
{
    if s.len() > 0 {
        lemma_split_on_nonempty(s.drop_last(), c);
    }
}

/// The character views of a list of string slices.
pub open spec fn str_views(v: Seq<&str>) -> Seq<Seq<char>> {
    v.map_values(|x: &str| x@)
}

/// Split `s` at every occurrence of `c`.
pub fn split_char<'a>(s: &'a str, c: char) -> (v: Vec<&'a str>)
    ensures
        str_views(v@) == split_on(s@, c),
{
    let n = s.unicode_len();
    let mut pieces: Vec<&'a str> = Vec::new();
    let mut start: usize = 0;
    let mut i: usize = 0;
    proof {
        assert(s@.take(0) =~= Seq::<char>::empty());
        assert(str_views(pieces@).push(s@.subrange(0, 0)) =~= split_on(s@.take(0), c));
    }
    while i < n
        invariant
            n == s@.len(),
            start <= i <= n,
            str_views(pieces@).push(s@.subrange(start as int, i as int)) == split_on(s@.take(i as int), c),
        decreases n - i,
    {
        let ch = s.get_char(i);
        proof {
            assert(s@.take(i as int + 1).drop_last() =~= s@.take(i as int));
            assert(s@.take(i as int + 1).last() == ch);
            lemma_split_on_nonempty(s@.take(i as int), c);
        }
        if ch == c {
            let piece = s.substring_char(start, i);
            let ghost before = pieces@;
            let ghost old_start = start;
            pieces.push(piece);
            start = i + 1;
            proof {
                assert(str_views(pieces@) =~= str_views(before).push(s@.subrange(old_start as int, i as int)));
                assert(s@.subrange(start as int, i as int + 1) =~= Seq::<char>::empty());
                assert(str_views(pieces@).push(s@.subrange(start as int, i as int + 1))
                    =~= split_on(s@.take(i as int + 1), c));
            }
        } else {
            proof {
                let p = split_on(s@.take(i as int), c);
                assert(s@.subrange(start as int, i as int + 1) =~= s@.subrange(start as int, i as int).push(ch));
                assert(str_views(pieces@).push(s@.subrange(start as int, i as int + 1))
                    =~= p.update(p.len() - 1, p.last().push(ch)));
            }
        }
        i += 1;
    }
    let last = s.substring_char(start, n);
    let ghost before = pieces@;
    pieces.push(last);
    proof {
        assert(s@.take(n as int) =~= s@);
        assert(str_views(pieces@) =~= str_views(before).push(s@.subrange(start as int, n as int)));
    }
    pieces
}

/// `p` without one trailing carriage return.
pub open spec fn strip_cr(p: Seq<char>) -> Seq<char> {
    if p.len() > 0 && p.last() == '\r' {
        p.drop_last()
    } else {
        p
    }
}

/// The lines of `s`, as `str::lines` yields them: split at `\n`, each
/// line ended by `\n` loses one `\r` before it, and an empty last piece
/// (text ending in `\n`, or empty text) is no line.
pub open spec fn lines_of(s: Seq<char>) -> Seq<Seq<char>> {
    let p = split_on(s, '\n');
    let body = Seq::new((p.len() - 1) as nat, |i: int| strip_cr(p[i]));
    if p.last().len() == 0 {
        body
    } else {
        body.push(p.last())
    }
}

/// The lines of `s`.
pub fn lines<'a>(s: &'a str) -> (v: Vec<&'a str>)
    ensures
        str_views(v@) == lines_of(s@),
{
    let parts = split_char(s, '\n');
    proof {
        lemma_split_on_nonempty(s@, '\n');
    }
    let ghost p = split_on(s@, '\n');
    let n = parts.len();
    let mut v: Vec<&'a str> = Vec::new();
    let mut i: usize = 0;
    while i + 1 < n
        invariant
            n == parts@.len(),
            n >= 1,
            p == str_views(parts@),
            i + 1 <= n,
            str_views(v@) == Seq::new(i as nat, |k: int| strip_cr(p[k])),
        decreases n - i,
    {
        let piece = parts[i];
        let len = piece.unicode_len();
        let line = if len > 0 && piece.get_char(len - 1) == '\r' {
            piece.substring_char(0, len - 1)
        } else {
            piece
        };
        proof {
            assert(p[i as int] == piece@);
            if len > 0 && piece@[len - 1] == '\r' {
                assert(line@ =~= strip_cr(piece@));
            }
        }
        let ghost before = v@;
        v.push(line);
        proof {
            assert(str_views(v@) =~= Seq::new((i + 1) as nat, |k: int| strip_cr(p[k]))) by {
                assert(str_views(v@) =~= str_views(before).push(line@));
            }
        }
        i += 1;
    }
    let last = parts[n - 1];
    proof {
        assert(p[n - 1] == last@);
        assert(p.last() == last@);
    }
    if last.unicode_len() > 0 {
        let ghost before = v@;
        v.push(last);
        proof {
            assert(str_views(v@) =~= str_views(before).push(last@));
        }
    }
    v
}

/// `needle` occurs in `hay`.
pub open spec fn has_chars(hay: Seq<char>, needle: Seq<char>) -> bool {
    exists|i: int| 0 <= i && i + needle.len() <= hay.len() && #[trigger] hay.subrange(i, i + needle.len()) == needle
}

/// `s` begins with `prefix`.
pub open spec fn begins_with(s: Seq<char>, prefix: Seq<char>) -> bool {
    prefix.len() <= s.len() && s.subrange(0, prefix.len() as int) == prefix
}

/// The characters of a string.
pub fn chars_of(s: &str) -> (v: Vec<char>)
    ensures
        v@ == s@,
{
    let n = s.unicode_len();
    let mut v: Vec<char> = Vec::new();
    let mut i: usize = 0;
    while i < n
        invariant
            n == s@.len(),
            i <= n,
            v@ == s@.take(i as int),
        decreases n - i,
    {
        v.push(s.get_char(i));
        i += 1;
        proof {
            assert(v@ =~= s@.take(i as int));
        }
    }
    proof {
        assert(s@.take(n as int) =~= s@);
    }
    v
}

fn chars_match_at(hay: &Vec<char>, needle: &Vec<char>, at: usize) -> (r: bool)
    requires
        at + needle@.len() <= hay@.len(),
    ensures
        r == (hay@.subrange(at as int, at + needle@.len()) == needle@),
{
    let hl = hay.len();
    let mut j: usize = 0;
    while j < needle.len()
        invariant
            hl == hay@.len(),
            at + needle@.len() <= hay@.len(),
            j <= needle@.len(),
            forall|k: int| 0 <= k < j ==> hay@[at + k] == needle@[k],
        decreases needle@.len() - j,
    {
        if hay[at + j] != needle[j] {
            proof {
                assert(hay@.subrange(at as int, at + needle@.len())[j as int] != needle@[j as int]);
            }
            return false;
        }
        j += 1;
    }
    proof {
        assert(hay@.subrange(at as int, at + needle@.len()) =~= needle@);
    }
    true
}

/// Whether `needle` occurs in `hay` (`str::contains`).
pub fn contains_text(hay: &str, needle: &str) -> (r: bool)
    ensures
        r == has_chars(hay@, needle@),
{
    let h = chars_of(hay);
    let n = chars_of(needle);
    if n.len() > h.len() {
        return false;
    }
    let limit = h.len() - n.len();
    let mut i: usize = 0;
    loop
        invariant
            h@ == hay@,
            n@ == needle@,
            limit == h@.len() - n@.len(),
            i <= limit,
            forall|k: int| 0 <= k < i ==> #[trigger] hay@.subrange(k, k + needle@.len()) != needle@,
        decreases limit - i,
    {
        if chars_match_at(&h, &n, i) {
            return true;
        }
        if i == limit {
            proof {
                assert forall|k: int| 0 <= k && k + needle@.len() <= hay@.len()
                    implies #[trigger] hay@.subrange(k, k + needle@.len()) != needle@ by {
                    assert(k <= i);
                }
            }
            return false;
        }
        i += 1;
    }
}

/// Whether `s` begins with `prefix` (`str::starts_with`).
pub fn starts_with_text(s: &str, prefix: &str) -> (r: bool)
    ensures
        r == begins_with(s@, prefix@),
{
    let h = chars_of(s);
    let p = chars_of(prefix);
    if p.len() > h.len() {
        return false;
    }
    chars_match_at(&h, &p, 0)
}

/// The state of the WMI CSV field scan after reading `line`: the finished
/// fields, the field being read, and whether a quote is open.
pub open spec fn csv_scan(line: Seq<char>) -> (Seq<Seq<char>>, Seq<char>, bool)
    decreases line.len(),
{
    if line.len() == 0 {
        (Seq::empty(), Seq::empty(), false)
    } else {
        let (done, cur, quoted) = csv_scan(line.drop_last());
        let ch = line.last();
        if ch == '"' {
            (done, cur, !quoted)
        } else if ch == ',' && !quoted {
            (done.push(cur), Seq::empty(), quoted)
        } else {
            (done, cur.push(ch), quoted)
        }
    }
}

/// The fields of a CSV line: commas outside double quotes separate them,
/// and the quotes themselves are dropped.
pub open spec fn csv_fields(line: Seq<char>) -> Seq<Seq<char>> {
    csv_scan(line).0.push(csv_scan(line).1)
}

/// The character views of a list of strings.
pub open spec fn string_views(v: Seq<String>) -> Seq<Seq<char>> {
    v.map_values(|x: String| x@)
}

/// Split a CSV line into its fields (see [`csv_fields`]).
pub fn split_csv_fields(line: &str) -> (v: Vec<String>)
    ensures
        string_views(v@) == csv_fields(line@),
{
    let cs = chars_of(line);
    let mut done: Vec<String> = Vec::new();
    let mut cur = String::new();
    let mut quoted = false;
    let mut i: usize = 0;
    proof {
        assert(line@.take(0) =~= Seq::<char>::empty());
        assert(string_views(done@) =~= Seq::<Seq<char>>::empty());
        assert(cur@ =~= Seq::<char>::empty());
    }
    while i < cs.len()
        invariant
            cs@ == line@,
            i <= cs@.len(),
            (string_views(done@), cur@, quoted) == csv_scan(line@.take(i as int)),
        decreases cs@.len() - i,
    {
        let ch = cs[i];
        proof {
            assert(line@.take(i as int + 1).drop_last() =~= line@.take(i as int));
            assert(line@.take(i as int + 1).last() == ch);
        }
        if ch == '"' {
            quoted = !quoted;
        } else if ch == ',' && !quoted {
            let ghost before = done@;
            let field = cur;
            cur = String::new();
            done.push(field);
            proof {
                assert(string_views(done@) =~= string_views(before).push(field@));
                assert(cur@ =~= Seq::<char>::empty());
            }
        } else {
            push_char(&mut cur, ch);
        }
        i += 1;
    }
    proof {
        assert(line@.take(i as int) =~= line@);
    }
    let ghost before = done@;
    let last = cur;
    done.push(last);
    proof {
        assert(string_views(done@) =~= string_views(before).push(last@));
    }
    done
}

/// What the Windows WMI video-controller probe reads of one GPU; the
/// adapter RAM stays text, for the caller to read as a byte count.
#[derive(Clone, Debug)]
pub struct WmiGpuRow {
    pub name: String,
    pub adapter_ram: String,
    pub driver_version: String,
    pub pnp_device_id: Option<String>,
}

/// Abstract value of [`WmiGpuRow`].
pub struct WmiGpuRowView {
    pub name: Seq<char>,
    pub adapter_ram: Seq<char>,
    pub driver_version: Seq<char>,
    pub pnp_device_id: Option<Seq<char>>,
}

impl View for WmiGpuRow {
    type V = WmiGpuRowView;

    open spec fn view(&self) -> WmiGpuRowView {
        WmiGpuRowView {
            name: self.name@,
            adapter_ram: self.adapter_ram@,
            driver_version: self.driver_version@,
            pnp_device_id: match self.pnp_device_id {
                Some(p) => Some(p@),
                None => None,
            },
        }
    }
}

/// The GPU a line of the WMI CSV output describes: the trimmed line, if
/// neither empty nor a `#` comment, split into at least three fields
/// (name, adapter RAM, driver version, then the PNP device id if present),
/// each trimmed, the name not empty.
pub open spec fn wmi_row(line: Seq<char>) -> Option<WmiGpuRowView> {
    let t = trimmed(line);
    if t.len() == 0 || t[0] == '#' {
        None
    } else {
        let parts = csv_fields(t);
        if parts.len() < 3 || trimmed(parts[0]).len() == 0 {
            None
        } else {
            Some(WmiGpuRowView {
                name: trimmed(parts[0]),
                adapter_ram: trimmed(parts[1]),
                driver_version: trimmed(parts[2]),
                pnp_device_id: if parts.len() > 3 { Some(trimmed(parts[3])) } else { None },
            })
        }
    }
}

/// The lines after the first one, if any.
pub open spec fn after_first(ls: Seq<Seq<char>>) -> Seq<Seq<char>> {
    if ls.len() == 0 {
        ls
    } else {
        ls.skip(1)
    }
}

/// The GPUs of the WMI CSV output: the rows after the header line.
pub open spec fn wmi_rows(text: Seq<char>) -> Seq<WmiGpuRowView> {
    after_first(lines_of(text)).filter_map(|l: Seq<char>| wmi_row(l))
}

fn wmi_row_of(line: &str) -> (r: Option<WmiGpuRow>)
    ensures
        match r {
            Some(row) => wmi_row(line@) == Some(row@),
            None => wmi_row(line@) is None,
        },
{
    let t = trim(line);
    if t.unicode_len() == 0 || t.get_char(0) == '#' {
        return None;
    }
    let parts = split_csv_fields(t);
    if parts.len() < 3 {
        return None;
    }
    let name = trim(parts[0].as_str());
    if name.unicode_len() == 0 {
        return None;
    }
    let pnp = if parts.len() > 3 { Some(trim(parts[3].as_str()).to_owned()) } else { None };
    let row = WmiGpuRow {
        name: name.to_owned(),
        adapter_ram: trim(parts[1].as_str()).to_owned(),
        driver_version: trim(parts[2].as_str()).to_owned(),
        pnp_device_id: pnp,
    };
    proof {
        assert(string_views(parts@)[0] == parts@[0]@);
        assert(string_views(parts@)[1] == parts@[1]@);
        assert(string_views(parts@)[2] == parts@[2]@);
        if parts@.len() > 3 {
            assert(string_views(parts@)[3] == parts@[3]@);
        }
    }
    Some(row)
}

/// Read the GPUs from the WMI CSV output (see [`wmi_rows`]).
pub fn parse_wmi_gpu_rows(text: &str) -> (v: Vec<WmiGpuRow>)
    ensures
        v@.map_values(|r: WmiGpuRow| r@) == wmi_rows(text@),
{
    let ls = lines(text);
    let ghost rest = after_first(lines_of(text@));
    let ghost f = |l: Seq<char>| wmi_row(l);
    let mut v: Vec<WmiGpuRow> = Vec::new();
    if ls.len() == 0 {
        proof {
            assert(rest =~= Seq::<Seq<char>>::empty());
            assert(v@.map_values(|r: WmiGpuRow| r@) =~= rest.filter_map(f));
        }
        return v;
    }
    let mut i: usize = 1;
    proof {
        assert(rest.take(0) =~= Seq::<Seq<char>>::empty());
        assert(v@.map_values(|r: WmiGpuRow| r@) =~= rest.take(0).filter_map(f));
    }
    while i < ls.len()
        invariant
            str_views(ls@) == lines_of(text@),
            rest == after_first(lines_of(text@)),
            f == (|l: Seq<char>| wmi_row(l)),
            1 <= i <= ls@.len(),
            v@.map_values(|r: WmiGpuRow| r@) == rest.take(i - 1).filter_map(f),
        decreases ls@.len() - i,
    {
        proof {
            assert(rest.take(i as int).drop_last() =~= rest.take(i - 1));
            assert(rest.take(i as int).last() == ls@[i as int]@);
        }
        let ghost before = v@;
        match wmi_row_of(ls[i]) {
            Some(row) => {
                v.push(row);
                proof {
                    assert(v@.map_values(|r: WmiGpuRow| r@) =~= before.map_values(|r: WmiGpuRow| r@) + seq![v@[v@.len() - 1]@]);
                }
            },
            None => {},
        }
        i += 1;
    }
    proof {
        assert(rest.take(i - 1) =~= rest);
    }
    v
}

/// The backend a GPU's PNP device id points to: NVIDIA (`VEN_10DE`) runs
/// CUDA; AMD (`VEN_1002`, `VEN_1022`) runs ROCm when this build supports
/// it and DirectML otherwise; Broadcom (`VEN_14E4`) runs Vulkan; Intel
/// (`VEN_8086`), anything else and a missing id run DirectML. The vendor
/// ids match without regard to ASCII case.
pub open spec fn backend_for_pnp(id: Option<Seq<char>>, rocm: bool) -> GpuBackend {
    match id {
        None => GpuBackend::Directml,
        Some(i) => {
            let l = ascii_lower_chars(i);
            if has_chars(l, "ven_10de"@) {
                GpuBackend::Cuda
            } else if has_chars(l, "ven_1002"@) || has_chars(l, "ven_1022"@) {
                if rocm {
                    GpuBackend::Rocm
                } else {
                    GpuBackend::Directml
                }
            } else if has_chars(l, "ven_8086"@) {
                GpuBackend::Directml
            } else if has_chars(l, "ven_14e4"@) {
                GpuBackend::Vulkan
            } else {
                GpuBackend::Directml
            }
        },
    }
}

/// Classify a GPU by its PNP device id (see [`backend_for_pnp`]);
/// `rocm` tells whether this build supports ROCm.
pub fn backend_for_pnp_id(pnp_device_id: &Option<String>, rocm: bool) -> (b: GpuBackend)
    ensures
        b == backend_for_pnp(
            match pnp_device_id {
                Some(p) => Some(p@),
                None => None,
            },
            rocm,
        ),
{
    match pnp_device_id {
        None => GpuBackend::Directml,
        Some(id) => {
            let lowered = to_ascii_lowercase(id.as_str());
            let l = lowered.as_str();
            if contains_text(l, "ven_10de") {
                GpuBackend::Cuda
            } else if contains_text(l, "ven_1002") || contains_text(l, "ven_1022") {
                if rocm {
                    GpuBackend::Rocm
                } else {
                    GpuBackend::Directml
                }
            } else if contains_text(l, "ven_8086") {
                GpuBackend::Directml
            } else if contains_text(l, "ven_14e4") {
                GpuBackend::Vulkan
            } else {
                GpuBackend::Directml
            }
        },
    }
}

/// The `n`-th piece of `s` split at `c` (`split(c).nth(n)`).
pub open spec fn nth_piece(s: Seq<char>, c: char, n: int) -> Option<Seq<char>> {
    if 0 <= n < split_on(s, c).len() {
        Some(split_on(s, c)[n])
    } else {
        None
    }
}

/// The `n`-th piece of `s` split at `c`.
pub fn nth_piece_of<'a>(s: &'a str, c: char, n: usize) -> (r: Option<&'a str>)
    ensures
        match r {
            Some(p) => nth_piece(s@, c, n as int) == Some(p@),
            None => nth_piece(s@, c, n as int) is None,
        },
{
    let parts = split_char(s, c);
    if n < parts.len() {
        proof {
            assert(str_views(parts@)[n as int] == parts@[n as int]@);
        }
        Some(parts[n])
    } else {
        None
    }
}

/// `s` up to its first white space: the first `split_whitespace` token of
/// a string without leading white space; `None` when `s` is empty.
pub open spec fn first_token(s: Seq<char>) -> Option<Seq<char>>
    decreases s.len(),
{
    if s.len() == 0 {
        None
    } else if is_white_space(s[0]) {
        Some(Seq::empty())
    } else {
        match first_token(s.drop_first()) {
            Some(t) => Some(seq![s[0]] + t),
            None => Some(seq![s[0]]),
        }
    }
}

fn first_token_of<'a>(s: &'a str) -> (r: Option<&'a str>)
    ensures
        match r {
            Some(t) => first_token(s@) == Some(t@),
            None => first_token(s@) is None,
        },
{
    let n = s.unicode_len();
    if n == 0 {
        return None;
    }
    let mut k: usize = 0;
    while k < n && !white_space(s.get_char(k))
        invariant
            n == s@.len(),
            k <= n,
            forall|j: int| 0 <= j < k ==> !is_white_space(#[trigger] s@[j]),
        decreases n - k,
    {
        k += 1;
    }
    proof {
        lemma_first_token(s@, k as int);
    }
    Some(s.substring_char(0, k))
}

proof fn lemma_first_token(s: Seq<char>, k: int)
    requires
        s.len() > 0,
        0 <= k <= s.len(),
        forall|j: int| 0 <= j < k ==> !is_white_space(#[trigger] s[j]),
        k < s.len() ==> is_white_space(s[k]),
    ensures
        first_token(s) == Some(s.subrange(0, k)),
    decreases s.len(),
{
    if k == 0 {
        assert(s.subrange(0, 0) =~= Seq::<char>::empty());
    } else {
        let t = s.drop_first();
        if t.len() == 0 {
            assert(s.subrange(0, k) =~= seq![s[0]]);
        } else {
            assert forall|j: int| 0 <= j < k - 1 implies !is_white_space(#[trigger] t[j]) by {
                assert(t[j] == s[j + 1]);
            }
            lemma_first_token(t, k - 1);
            assert(s.subrange(0, k) =~= seq![s[0]] + t.subrange(0, k - 1));
        }
    }
}

/// What the macOS display report (`system_profiler SPDisplaysDataType`)
/// says of the GPU. Each VRAM line contributes the first token of its
/// value, in order, for the caller to read as a number of GB.
#[derive(Clone, Debug)]
pub struct MacDisplayInfo {
    pub name: String,
    pub vram_tokens: Vec<String>,
    pub metal_support: String,
    pub metal_family: String,
}

/// Abstract value of [`MacDisplayInfo`].
pub struct MacDisplayView {
    pub name: Seq<char>,
    pub vram_tokens: Seq<Seq<char>>,
    pub metal_support: Seq<char>,
    pub metal_family: Seq<char>,
}

impl View for MacDisplayInfo {
    type V = MacDisplayView;

    open spec fn view(&self) -> MacDisplayView {
        MacDisplayView {
            name: self.name@,
            vram_tokens: string_views(self.vram_tokens@),
            metal_support: self.metal_support@,
            metal_family: self.metal_family@,
        }
    }
}

/// The value of a `key: value` line: its second `:` piece, trimmed.
pub open spec fn colon_value(line: Seq<char>) -> Option<Seq<char>> {
    match nth_piece(line, ':', 1) {
        Some(v) => Some(trimmed(v)),
        None => None,
    }
}

/// The display report after one more line: a `Chipset Model:` line sets
/// the name, a `VRAM` line adds the first token of its value (if any),
/// and `Metal Support` / `Metal Family` lines set those fields.
pub open spec fn mac_display_step(d: MacDisplayView, line: Seq<char>) -> MacDisplayView {
    let d1 = if has_chars(line, "Chipset Model:"@) && colon_value(line) is Some {
        MacDisplayView { name: colon_value(line)->0, ..d }
    } else {
        d
    };
    let vram_value = match colon_value(line) {
        Some(v) => v,
        None => Seq::<char>::empty(),
    };
    let d2 = if has_chars(line, "VRAM"@) && first_token(vram_value) is Some {
        MacDisplayView { vram_tokens: d1.vram_tokens.push(first_token(vram_value)->0), ..d1 }
    } else {
        d1
    };
    let d3 = if has_chars(line, "Metal Support"@) && colon_value(line) is Some {
        MacDisplayView { metal_support: colon_value(line)->0, ..d2 }
    } else {
        d2
    };
    if has_chars(line, "Metal Family"@) && colon_value(line) is Some {
        MacDisplayView { metal_family: colon_value(line)->0, ..d3 }
    } else {
        d3
    }
}

/// The display report read line by line from the defaults: name
/// "Apple GPU", no VRAM, Metal support "metal", no Metal family.
pub open spec fn mac_display_scan(ls: Seq<Seq<char>>) -> MacDisplayView
    decreases ls.len(),
{
    if ls.len() == 0 {
        MacDisplayView {
            name: "Apple GPU"@,
            vram_tokens: Seq::empty(),
            metal_support: "metal"@,
            metal_family: Seq::empty(),
        }
    } else {
        mac_display_step(mac_display_scan(ls.drop_last()), ls.last())
    }
}

fn colon_value_of(line: &str) -> (r: Option<&str>)
    ensures
        match r {
            Some(v) => colon_value(line@) == Some(v@),
            None => colon_value(line@) is None,
        },
{
    match nth_piece_of(line, ':', 1) {
        Some(v) => Some(trim(v)),
        None => None,
    }
}

/// Read the macOS display report (see [`mac_display_scan`]).
pub fn parse_mac_display_info(text: &str) -> (d: MacDisplayInfo)
    ensures
        d@ == mac_display_scan(lines_of(text@)),
{
    let ls = lines(text);
    let mut d = MacDisplayInfo {
        name: "Apple GPU".to_owned(),
        vram_tokens: Vec::new(),
        metal_support: "metal".to_owned(),
        metal_family: String::new(),
    };
    let mut i: usize = 0;
    proof {
        assert(str_views(ls@).take(0) =~= Seq::<Seq<char>>::empty());
        assert(string_views(d.vram_tokens@) =~= Seq::<Seq<char>>::empty());
        assert(d.metal_family@ =~= Seq::<char>::empty());
        assert(d@ == mac_display_scan(str_views(ls@).take(0)));
    }
    while i < ls.len()
        invariant
            str_views(ls@) == lines_of(text@),
            i <= ls@.len(),
            d@ == mac_display_scan(str_views(ls@).take(i as int)),
        decreases ls@.len() - i,
    {
        let line = ls[i];
        proof {
            assert(str_views(ls@).take(i as int + 1).drop_last() =~= str_views(ls@).take(i as int));
            assert(str_views(ls@).take(i as int + 1).last() == line@);
        }
        let value = colon_value_of(line);
        if contains_text(line, "Chipset Model:") {
            if let Some(v) = value {
                d.name = v.to_owned();
            }
        }
        if contains_text(line, "VRAM") {
            let v = match value {
                Some(v) => v,
                None => "",
            };
            proof {
                reveal_strlit("");
            }
            if let Some(tok) = first_token_of(v) {
                let ghost before = d.vram_tokens@;
                d.vram_tokens.push(tok.to_owned());
                proof {
                    assert(string_views(d.vram_tokens@) =~= string_views(before).push(tok@));
                }
            }
        }
        if contains_text(line, "Metal Support") {
            if let Some(v) = value {
                d.metal_support = v.to_owned();
            }
        }
        if contains_text(line, "Metal Family") {
            if let Some(v) = value {
                d.metal_family = v.to_owned();
            }
        }
        i += 1;
    }
    proof {
        assert(str_views(ls@).take(i as int) =~= str_views(ls@));
    }
    d
}

/// The compute capability a Mac GPU reports: its Metal support when that
/// says more than "metal", else `apple_metal/<family>` when the family is
/// known, else `apple_metal`.
pub open spec fn mac_compute_capability(metal_support: Seq<char>, metal_family: Seq<char>) -> Seq<char> {
    if metal_support.len() > 0 && metal_support != "metal"@ {
        metal_support
    } else if metal_family.len() > 0 {
        "apple_metal/"@ + metal_family
    } else {
        "apple_metal"@
    }
}

/// The compute capability of a Mac GPU (see [`mac_compute_capability`]).
pub fn mac_compute_capability_of(metal_support: &str, metal_family: &str) -> (cc: String)
    ensures
        cc@ == mac_compute_capability(metal_support@, metal_family@),
{
    let metal = "metal".to_owned();
    let support = metal_support.to_owned();
    if metal_support.unicode_len() > 0 && support != metal {
        support
    } else if metal_family.unicode_len() > 0 {
        let mut cc = "apple_metal/".to_owned();
        cc.append(metal_family);
        cc
    } else {
        "apple_metal".to_owned()
    }
}

/// The first line that contains `a` or `b`.
pub open spec fn find_line(ls: Seq<Seq<char>>, a: Seq<char>, b: Seq<char>) -> Option<Seq<char>>
    decreases ls.len(),
{
    if ls.len() == 0 {
        None
    } else if has_chars(ls[0], a) || has_chars(ls[0], b) {
        Some(ls[0])
    } else {
        find_line(ls.drop_first(), a, b)
    }
}

fn find_line_of<'a>(ls: &Vec<&'a str>, a: &str, b: &str) -> (r: Option<&'a str>)
    ensures
        match r {
            Some(l) => find_line(str_views(ls@), a@, b@) == Some(l@),
            None => find_line(str_views(ls@), a@, b@) is None,
        },
{
    let ghost v = str_views(ls@);
    let mut i: usize = 0;
    proof {
        assert(v.skip(0) =~= v);
    }
    while i < ls.len()
        invariant
            v == str_views(ls@),
            i <= ls@.len(),
            find_line(v, a@, b@) == find_line(v.skip(i as int), a@, b@),
        decreases ls@.len() - i,
    {
        proof {
            assert(v.skip(i as int)[0] == ls@[i as int]@);
            assert(v.skip(i as int).drop_first() =~= v.skip(i as int + 1));
        }
        if contains_text(ls[i], a) || contains_text(ls[i], b) {
            return Some(ls[i]);
        }
        i += 1;
    }
    proof {
        assert(v.skip(i as int) =~= Seq::<Seq<char>>::empty());
    }
    None
}

/// `s` without the copies of `c` it starts with.
pub open spec fn strip_leading(s: Seq<char>, c: char) -> Seq<char>
    decreases s.len(),
{
    if s.len() > 0 && s[0] == c {
        strip_leading(s.drop_first(), c)
    } else {
        s
    }
}

/// `s` without the copies of `c` it ends with.
pub open spec fn strip_trailing(s: Seq<char>, c: char) -> Seq<char>
    decreases s.len(),
{
    if s.len() > 0 && s.last() == c {
        strip_trailing(s.drop_last(), c)
    } else {
        s
    }
}

/// `s` without the copies of `c` at either end (`str::trim_matches`).
pub open spec fn trim_char(s: Seq<char>, c: char) -> Seq<char> {
    strip_trailing(strip_leading(s, c), c)
}

fn trim_char_of<'a>(s: &'a str, c: char) -> (t: &'a str)
    ensures
        t@ == trim_char(s@, c),
{
    let n = s.unicode_len();
    let mut a: usize = 0;
    proof {
        assert(s@.subrange(0, n as int) =~= s@);
    }
    while a < n && s.get_char(a) == c
        invariant
            n == s@.len(),
            a <= n,
            strip_leading(s@, c) == strip_leading(s@.subrange(a as int, n as int), c),
        decreases n - a,
    {
        proof {
            assert(s@.subrange(a as int, n as int).drop_first() =~= s@.subrange(a + 1, n as int));
        }
        a += 1;
    }
    proof {
        if a < n {
            assert(s@.subrange(a as int, n as int)[0] == s@[a as int]);
        }
        assert(strip_leading(s@, c) == s@.subrange(a as int, n as int));
    }
    let mut b: usize = n;
    while b > a && s.get_char(b - 1) == c
        invariant
            n == s@.len(),
            a <= b <= n,
            strip_trailing(s@.subrange(a as int, n as int), c) == strip_trailing(s@.subrange(a as int, b as int), c),
        decreases b - a,
    {
        proof {
            assert(s@.subrange(a as int, b as int).drop_last() =~= s@.subrange(a as int, b - 1));
        }
        b -= 1;
    }
    proof {
        if b > a {
            assert(s@.subrange(a as int, b as int).last() == s@[b - 1]);
        }
    }
    s.substring_char(a, b)
}

/// The available memory the IOKit accelerator listing reports, as text:
/// when a line names `"gpu-core-count"`, the first line naming
/// `"memory-available"` gives it after its `=`, trimmed of white space and
/// then of quotes.
pub open spec fn ioreg_memory_text(text: Seq<char>) -> Option<Seq<char>> {
    let ls = lines_of(text);
    if find_line(ls, "\"gpu-core-count\""@, "\"gpu-core-count\""@) is Some {
        match find_line(ls, "\"memory-available\""@, "\"memory-available\""@) {
            Some(m) => match nth_piece(m, '=', 1) {
                Some(v) => Some(trim_char(trimmed(v), '"')),
                None => None,
            },
            None => None,
        }
    } else {
        None
    }
}

/// Read the available GPU memory from the IOKit accelerator listing (see
/// [`ioreg_memory_text`]).
pub fn ioreg_memory_available(text: &str) -> (r: Option<String>)
    ensures
        match r {
            Some(v) => ioreg_memory_text(text@) == Some(v@),
            None => ioreg_memory_text(text@) is None,
        },
{
    let ls = lines(text);
    let core = "\"gpu-core-count\"";
    let mem = "\"memory-available\"";
    if find_line_of(&ls, core, core).is_none() {
        return None;
    }
    match find_line_of(&ls, mem, mem) {
        Some(m) => match nth_piece_of(m, '=', 1) {
            Some(v) => Some(trim_char_of(trim(v), '"').to_owned()),
            None => None,
        },
        None => None,
    }
}

/// The CPU brand `lscpu` reports: the value of its first `Model name` line.
pub open spec fn lscpu_brand(text: Seq<char>) -> Option<Seq<char>> {
    match find_line(lines_of(text), "Model name"@, "Model name"@) {
        Some(l) => colon_value(l),
        None => None,
    }
}

/// Read the CPU brand from `lscpu` output (see [`lscpu_brand`]).
pub fn cpu_brand_from_lscpu(text: &str) -> (r: Option<String>)
    ensures
        match r {
            Some(b) => lscpu_brand(text@) == Some(b@),
            None => lscpu_brand(text@) is None,
        },
{
    let ls = lines(text);
    match find_line_of(&ls, "Model name", "Model name") {
        Some(l) => match colon_value_of(l) {
            Some(v) => Some(v.to_owned()),
            None => None,
        },
        None => None,
    }
}

/// The CPU name a line of `wmic cpu get name /format:csv` gives: the
/// trimmed line, when not empty and not the `Node` header, has a second
/// comma-separated field that is not empty once trimmed.
pub open spec fn wmic_name(line: Seq<char>) -> Option<Seq<char>> {
    let t = trimmed(line);
    if t.len() > 0 && !has_chars(t, "Node"@) {
        match nth_piece(t, ',', 1) {
            Some(n) => if trimmed(n).len() > 0 { Some(trimmed(n)) } else { None },
            None => None,
        }
    } else {
        None
    }
}

/// The first line of `ls` that gives a CPU name.
pub open spec fn first_wmic_name(ls: Seq<Seq<char>>) -> Option<Seq<char>>
    decreases ls.len(),
{
    if ls.len() == 0 {
        None
    } else if wmic_name(ls[0]) is Some {
        wmic_name(ls[0])
    } else {
        first_wmic_name(ls.drop_first())
    }
}

fn wmic_name_of(line: &str) -> (r: Option<String>)
    ensures
        match r {
            Some(n) => wmic_name(line@) == Some(n@),
            None => wmic_name(line@) is None,
        },
{
    let t = trim(line);
    if t.unicode_len() > 0 && !contains_text(t, "Node") {
        match nth_piece_of(t, ',', 1) {
            Some(n) => {
                let n2 = trim(n);
                if n2.unicode_len() > 0 {
                    Some(n2.to_owned())
                } else {
                    None
                }
            },
            None => None,
        }
    } else {
        None
    }
}

/// Read the CPU name from `wmic` CSV output: the first line after the
/// header that gives one (see [`wmic_name`]).
pub fn cpu_brand_from_wmic(text: &str) -> (r: Option<String>)
    ensures
        match r {
            Some(n) => first_wmic_name(after_first(lines_of(text@))) == Some(n@),
            None => first_wmic_name(after_first(lines_of(text@))) is None,
        },
{
    let ls = lines(text);
    let ghost v = after_first(str_views(ls@));
    if ls.len() == 0 {
        return None;
    }
    let mut i: usize = 1;
    proof {
        assert(v.skip(0) =~= v);
    }
    while i < ls.len()
        invariant
            v == after_first(str_views(ls@)),
            str_views(ls@) == lines_of(text@),
            1 <= i <= ls@.len(),
            first_wmic_name(v) == first_wmic_name(v.skip(i - 1)),
        decreases ls@.len() - i,
    {
        proof {
            assert(v.skip(i - 1)[0] == ls@[i as int]@);
            assert(v.skip(i - 1).drop_first() =~= v.skip(i as int));
        }
        let r = wmic_name_of(ls[i]);
        if r.is_some() {
            return r;
        }
        i += 1;
    }
    proof {
        assert(v.skip(i - 1) =~= Seq::<Seq<char>>::empty());
    }
    None
}

/// A command's output trimmed, when anything is left.
pub open spec fn trimmed_output(text: Seq<char>) -> Option<Seq<char>> {
    if trimmed(text).len() > 0 {
        Some(trimmed(text))
    } else {
        None
    }
}

/// Read a one-value command output (`hostname`, `sysctl -n ...`): the
/// trimmed text, unless it is empty.
pub fn trimmed_nonempty(text: &str) -> (r: Option<String>)
    ensures
        match r {
            Some(v) => trimmed_output(text@) == Some(v@),
            None => trimmed_output(text@) is None,
        },
{
    let t = trim(text);
    if t.unicode_len() > 0 {
        Some(t.to_owned())
    } else {
        None
    }
}

fn strip_prefix_of<'a>(s: &'a str, prefix: &str) -> (r: Option<&'a str>)
    ensures
        match r {
            Some(t) => begins_with(s@, prefix@) && t@ == s@.skip(prefix@.len() as int),
            None => !begins_with(s@, prefix@),
        },
{
    if starts_with_text(s, prefix) {
        let n = s.unicode_len();
        let k = prefix.unicode_len();
        Some(s.substring_char(k, n))
    } else {
        None
    }
}

/// The package and the set of `package-core` keys after one more line of
/// `/proc/cpuinfo`: a `physical id` line names the current package, and a
/// `core id` line under a known package adds its key.
pub open spec fn cpuinfo_step(st: (Option<Seq<char>>, Set<Seq<char>>), line: Seq<char>) -> (Option<Seq<char>>, Set<Seq<char>>) {
    let pkg = if begins_with(line, "physical id\t: "@) {
        Some(trimmed(line.skip("physical id\t: "@.len() as int)))
    } else {
        st.0
    };
    let cores = if begins_with(line, "core id\t\t: "@) && pkg is Some {
        st.1.insert(pkg->0 + "-"@ + trimmed(line.skip("core id\t\t: "@.len() as int)))
    } else {
        st.1
    };
    (pkg, cores)
}

/// The `cpuinfo_step` state after the lines `ls`.
pub open spec fn cpuinfo_scan(ls: Seq<Seq<char>>) -> (Option<Seq<char>>, Set<Seq<char>>)
    decreases ls.len(),
{
    if ls.len() == 0 {
        (None, Set::empty())
    } else {
        cpuinfo_step(cpuinfo_scan(ls.drop_last()), ls.last())
    }
}

/// The physical core count `/proc/cpuinfo` shows: the number of distinct
/// package/core pairs, when there is any.
pub open spec fn cpuinfo_physical_cores(text: Seq<char>) -> Option<nat> {
    let keys = cpuinfo_scan(lines_of(text)).1;
    if keys.len() > 0 {
        Some(keys.len())
    } else {
        None
    }
}

proof fn lemma_push_to_set(s: Seq<Seq<char>>, x: Seq<char>)
    requires
        s.no_duplicates(),
        !s.contains(x),
    ensures
        s.push(x).to_set() == s.to_set().insert(x),
        s.push(x).no_duplicates(),
{
    let t = s.push(x);
    assert forall|y: Seq<char>| #[trigger] t.contains(y) <==> s.contains(y) || y == x by {
        if t.contains(y) {
            let i = choose|i: int| 0 <= i < t.len() && t[i] == y;
            if i < s.len() {
                assert(s[i] == y);
            }
        }
        if s.contains(y) {
            let i = choose|i: int| 0 <= i < s.len() && s[i] == y;
            assert(t[i] == y);
        }
        if y == x {
            assert(t[s.len() as int] == x);
        }
    }
    assert(t.to_set() =~= s.to_set().insert(x));
    assert forall|i: int, j: int| 0 <= i < t.len() && 0 <= j < t.len() && i != j implies t[i] != t[j] by {
        if i < s.len() && j < s.len() {
        } else if i < s.len() {
            assert(s.contains(t[i]));
        } else if j < s.len() {
            assert(s.contains(t[j]));
        }
    }
}

fn contains_string(v: &Vec<String>, x: &String) -> (r: bool)
    ensures
        r == string_views(v@).contains(x@),
{
    let mut i: usize = 0;
    while i < v.len()
        invariant
            i <= v@.len(),
            forall|j: int| 0 <= j < i ==> v@[j]@ != x@,
        decreases v@.len() - i,
    {
        if v[i] == *x {
            proof {
                assert(string_views(v@)[i as int] == x@);
            }
            return true;
        }
        i += 1;
    }
    proof {
        if string_views(v@).contains(x@) {
            let j = choose|j: int| 0 <= j < string_views(v@).len() && string_views(v@)[j] == x@;
            assert(v@[j]@ == x@);
        }
    }
    false
}

/// Count the physical cores listed in `/proc/cpuinfo` (see
/// [`cpuinfo_physical_cores`]).
pub fn physical_cores_from_cpuinfo(text: &str) -> (r: Option<usize>)
    ensures
        match r {
            Some(n) => cpuinfo_physical_cores(text@) == Some(n as nat),
            None => cpuinfo_physical_cores(text@) is None,
        },
{
    let ls = lines(text);
    let ghost v = str_views(ls@);
    let mut pkg: Option<String> = None;
    let mut keys: Vec<String> = Vec::new();
    let mut i: usize = 0;
    proof {
        assert(v.take(0) =~= Seq::<Seq<char>>::empty());
        assert(string_views(keys@).to_set() =~= Set::<Seq<char>>::empty());
    }
    while i < ls.len()
        invariant
            v == str_views(ls@),
            i <= ls@.len(),
            cpuinfo_scan(v.take(i as int)).0 == (match pkg {
                Some(p) => Some(p@),
                None => None,
            }),
            cpuinfo_scan(v.take(i as int)).1 == string_views(keys@).to_set(),
            string_views(keys@).no_duplicates(),
        decreases ls@.len() - i,
    {
        let line = ls[i];
        proof {
            assert(v.take(i as int + 1).drop_last() =~= v.take(i as int));
            assert(v.take(i as int + 1).last() == line@);
        }
        if let Some(val) = strip_prefix_of(line, "physical id\t: ") {
            pkg = Some(trim(val).to_owned());
        }
        if let Some(val) = strip_prefix_of(line, "core id\t\t: ") {
            if let Some(p) = &pkg {
                let mut key = p.clone();
                key.append("-");
                key.append(trim(val));
                if !contains_string(&keys, &key) {
                    let ghost before = keys@;
                    keys.push(key);
                    proof {
                        assert(string_views(keys@) =~= string_views(before).push(key@));
                        lemma_push_to_set(string_views(before), key@);
                    }
                } else {
                    proof {
                        assert(string_views(keys@).to_set() =~= string_views(keys@).to_set().insert(key@));
                    }
                }
            }
        }
        i += 1;
    }
    proof {
        assert(v.take(i as int) =~= v);
        string_views(keys@).unique_seq_to_set();
    }
    if keys.len() > 0 {
        Some(keys.len())
    } else {
        None
    }
}

/// The fields of an `lspci -mm` line at odd positions between quotes,
/// trimmed, the empty ones left out.
pub open spec fn quoted_fields(p: Seq<Seq<char>>) -> Seq<Seq<char>>
    decreases p.len(),
{
    if p.len() == 0 {
        Seq::empty()
    } else {
        let q = quoted_fields(p.drop_last());
        if (p.len() - 1) % 2 == 1 && trimmed(p.last()).len() > 0 {
            q.push(trimmed(p.last()))
        } else {
            q
        }
    }
}

/// The display controller `lspci -mm` lists first: its description (the
/// third quoted field, else the last one, else the whole trimmed line) and
/// its PCI address (the line up to the first space, trimmed).
pub open spec fn lspci_gpu(text: Seq<char>) -> Option<(Seq<char>, Seq<char>)> {
    match find_line(lines_of(text), "VGA compatible controller"@, "3D controller"@) {
        None => None,
        Some(line) => {
            let q = quoted_fields(split_on(line, '"'));
            let description = if q.len() > 2 {
                q[2]
            } else if q.len() > 0 {
                q.last()
            } else {
                trimmed(line)
            };
            Some((description, trimmed(split_on(line, ' ')[0])))
        },
    }
}

/// Read the first display controller from `lspci -mm` output (see
/// [`lspci_gpu`]): its description and PCI address.
pub fn parse_lspci_gpu(text: &str) -> (r: Option<(String, String)>)
    ensures
        match r {
            Some((d, a)) => lspci_gpu(text@) == Some((d@, a@)),
            None => lspci_gpu(text@) is None,
        },
{
    let ls = lines(text);
    let line = match find_line_of(&ls, "VGA compatible controller", "3D controller") {
        Some(l) => l,
        None => return None,
    };
    let parts = split_char(line, '"');
    let ghost p = str_views(parts@);
    let mut q: Vec<String> = Vec::new();
    let mut i: usize = 0;
    proof {
        assert(p.take(0) =~= Seq::<Seq<char>>::empty());
        assert(string_views(q@) =~= quoted_fields(p.take(0)));
    }
    while i < parts.len()
        invariant
            p == str_views(parts@),
            i <= parts@.len(),
            string_views(q@) == quoted_fields(p.take(i as int)),
        decreases parts@.len() - i,
    {
        proof {
            assert(p.take(i as int + 1).drop_last() =~= p.take(i as int));
            assert(p.take(i as int + 1).last() == parts@[i as int]@);
        }
        if i % 2 == 1 {
            let t = trim(parts[i]);
            if t.unicode_len() > 0 {
                let ghost before = q@;
                q.push(t.to_owned());
                proof {
                    assert(string_views(q@) =~= string_views(before).push(t@));
                }
            }
        }
        i += 1;
    }
    proof {
        assert(p.take(i as int) =~= p);
    }
    let description = if q.len() > 2 {
        proof {
            assert(string_views(q@)[2] == q@[2]@);
        }
        q[2].clone()
    } else if q.len() > 0 {
        proof {
            assert(string_views(q@).last() == q@[q@.len() - 1]@);
        }
        q[q.len() - 1].clone()
    } else {
        trim(line).to_owned()
    };
    let first = split_char(line, ' ');
    proof {
        lemma_split_on_nonempty(line@, ' ');
        assert(str_views(first@)[0] == first@[0]@);
    }
    Some((description, trim(first[0]).to_owned()))
}

/// The GPU name `vulkaninfo --summary` gives: the value of its first
/// `GPU id` or `deviceName` line, or "Vulkan GPU" when that line has none.
pub open spec fn vulkan_gpu(text: Seq<char>) -> Option<Seq<char>> {
    match find_line(lines_of(text), "GPU id"@, "deviceName"@) {
        None => None,
        Some(l) => Some(
            match colon_value(l) {
                Some(v) => v,
                None => "Vulkan GPU"@,
            },
        ),
    }
}

/// Read the GPU name from `vulkaninfo --summary` output (see [`vulkan_gpu`]).
pub fn vulkan_gpu_name(text: &str) -> (r: Option<String>)
    ensures
        match r {
            Some(n) => vulkan_gpu(text@) == Some(n@),
            None => vulkan_gpu(text@) is None,
        },
{
    let ls = lines(text);
    match find_line_of(&ls, "GPU id", "deviceName") {
        None => None,
        Some(l) => match colon_value_of(l) {
            Some(v) => Some(v.to_owned()),
            None => Some("Vulkan GPU".to_owned()),
        },
    }
}

/// What `nvidia-smi --query-gpu=index,name,memory.total,compute_cap,
/// driver_version --format=csv,noheader,nounits` says of one GPU; the
/// memory stays text, for the caller to read as MiB.
#[derive(Clone, Debug)]
pub struct NvidiaGpuRow {
    pub name: String,
    pub memory_total: Option<String>,
    pub compute_capability: String,
    pub driver_version: String,
}

/// Abstract value of [`NvidiaGpuRow`].
pub struct NvidiaGpuView {
    pub name: Seq<char>,
    pub memory_total: Option<Seq<char>>,
    pub compute_capability: Seq<char>,
    pub driver_version: Seq<char>,
}

impl View for NvidiaGpuRow {
    type V = NvidiaGpuView;

    open spec fn view(&self) -> NvidiaGpuView {
        NvidiaGpuView {
            name: self.name@,
            memory_total: match self.memory_total {
                Some(m) => Some(m@),
                None => None,
            },
            compute_capability: self.compute_capability@,
            driver_version: self.driver_version@,
        }
    }
}

/// One line of `nvidia-smi` CSV output: `Some(None)` for a blank line,
/// `None` for a line without a name field (which voids the whole probe),
/// else the GPU: name, memory, compute capability ("gpu" when missing) and
/// driver version (empty when missing), each field trimmed.
pub open spec fn nvidia_row(line: Seq<char>) -> Option<Option<NvidiaGpuView>> {
    let t = trimmed(line);
    if t.len() == 0 {
        Some(None)
    } else {
        let p = split_on(t, ',');
        if p.len() < 2 {
            None
        } else {
            Some(
                Some(
                    NvidiaGpuView {
                        name: trimmed(p[1]),
                        memory_total: if p.len() > 2 { Some(trimmed(p[2])) } else { None },
                        compute_capability: if p.len() > 3 { trimmed(p[3]) } else { "gpu"@ },
                        driver_version: if p.len() > 4 { trimmed(p[4]) } else { Seq::empty() },
                    },
                ),
            )
        }
    }
}

/// The GPUs of the lines `ls`, or `None` when a line voids the probe.
pub open spec fn nvidia_scan(ls: Seq<Seq<char>>) -> Option<Seq<NvidiaGpuView>>
    decreases ls.len(),
{
    if ls.len() == 0 {
        Some(Seq::empty())
    } else {
        match nvidia_scan(ls.drop_last()) {
            None => None,
            Some(rows) => match nvidia_row(ls.last()) {
                None => None,
                Some(None) => Some(rows),
                Some(Some(r)) => Some(rows.push(r)),
            },
        }
    }
}

/// The GPUs `nvidia-smi` lists, when it lists any and no line voids the
/// probe.
pub open spec fn nvidia_gpus(text: Seq<char>) -> Option<Seq<NvidiaGpuView>> {
    match nvidia_scan(lines_of(text)) {
        Some(rows) => if rows.len() > 0 { Some(rows) } else { None },
        None => None,
    }
}

proof fn lemma_nvidia_void_persists(ls: Seq<Seq<char>>, k: int)
    requires
        0 <= k <= ls.len(),
        nvidia_scan(ls.take(k)) is None,
    ensures
        nvidia_scan(ls) is None,
    decreases ls.len() - k,
{
    if k < ls.len() {
        assert(ls.take(k + 1).drop_last() =~= ls.take(k));
        lemma_nvidia_void_persists(ls, k + 1);
    } else {
        assert(ls.take(k) =~= ls);
    }
}

fn opt_trimmed_piece(p: &Vec<&str>, k: usize) -> (r: Option<String>)
    ensures
        match r {
            Some(s) => k < p@.len() && s@ == trimmed(p@[k as int]@),
            None => k >= p@.len(),
        },
{
    if k < p.len() {
        Some(trim(p[k]).to_owned())
    } else {
        None
    }
}

/// Read the GPUs from `nvidia-smi` CSV output (see [`nvidia_gpus`]).
pub fn parse_nvidia_smi(text: &str) -> (r: Option<Vec<NvidiaGpuRow>>)
    ensures
        match r {
            Some(v) => nvidia_gpus(text@) == Some(v@.map_values(|x: NvidiaGpuRow| x@)),
            None => nvidia_gpus(text@) is None,
        },
{
    let ls = lines(text);
    let ghost lv = str_views(ls@);
    let mut rows: Vec<NvidiaGpuRow> = Vec::new();
    let mut i: usize = 0;
    proof {
        assert(lv.take(0) =~= Seq::<Seq<char>>::empty());
        assert(rows@.map_values(|x: NvidiaGpuRow| x@) =~= Seq::<NvidiaGpuView>::empty());
    }
    while i < ls.len()
        invariant
            lv == str_views(ls@),
            lv == lines_of(text@),
            i <= ls@.len(),
            nvidia_scan(lv.take(i as int)) == Some(rows@.map_values(|x: NvidiaGpuRow| x@)),
        decreases ls@.len() - i,
    {
        let line = ls[i];
        proof {
            assert(lv.take(i as int + 1).drop_last() =~= lv.take(i as int));
            assert(lv.take(i as int + 1).last() == line@);
        }
        let t = trim(line);
        if t.unicode_len() > 0 {
            let parts = split_char(t, ',');
            if parts.len() < 2 {
                proof {
                    lemma_nvidia_void_persists(lv, i as int + 1);
                }
                return None;
            }
            proof {
                assert(str_views(parts@)[1] == parts@[1]@);
                if parts@.len() > 2 {
                    assert(str_views(parts@)[2] == parts@[2]@);
                }
                if parts@.len() > 3 {
                    assert(str_views(parts@)[3] == parts@[3]@);
                }
                if parts@.len() > 4 {
                    assert(str_views(parts@)[4] == parts@[4]@);
                }
            }
            let compute_capability = match opt_trimmed_piece(&parts, 3) {
                Some(c) => c,
                None => "gpu".to_owned(),
            };
            let driver_version = match opt_trimmed_piece(&parts, 4) {
                Some(d) => d,
                None => String::new(),
            };
            let row = NvidiaGpuRow {
                name: trim(parts[1]).to_owned(),
                memory_total: opt_trimmed_piece(&parts, 2),
                compute_capability,
                driver_version,
            };
            let ghost before = rows@;
            rows.push(row);
            proof {
                assert(driver_version@ == (if parts@.len() > 4 { trimmed(parts@[4]@) } else { Seq::<char>::empty() }));
                assert(rows@.map_values(|x: NvidiaGpuRow| x@) =~= before.map_values(|x: NvidiaGpuRow| x@).push(rows@[rows@.len() - 1]@));
            }
        }
        i += 1;
    }
    proof {
        assert(lv.take(i as int) =~= lv);
    }
    if rows.len() > 0 {
        Some(rows)
    } else {
        None
    }
}

/// The card model `rocm-smi --showproductname` gives on a `GPU[..]` line
/// with `Card model:`: its third `:` piece trimmed, or "AMD GPU".
pub open spec fn rocm_card_model(line: Seq<char>) -> Option<Seq<char>> {
    if has_chars(line, "GPU["@) && has_chars(line, "Card model:"@) {
        Some(
            match nth_piece(line, ':', 2) {
                Some(v) => trimmed(v),
                None => "AMD GPU"@,
            },
        )
    } else {
        None
    }
}

/// The card models `rocm-smi --showproductname` lists, in order.
pub open spec fn rocm_card_models(text: Seq<char>) -> Seq<Seq<char>> {
    lines_of(text).filter_map(|l: Seq<char>| rocm_card_model(l))
}

/// Read the card models from `rocm-smi --showproductname` output (see
/// [`rocm_card_models`]).
pub fn parse_rocm_card_models(text: &str) -> (v: Vec<String>)
    ensures
        string_views(v@) == rocm_card_models(text@),
{
    let ls = lines(text);
    let ghost lv = str_views(ls@);
    let ghost f = |l: Seq<char>| rocm_card_model(l);
    let mut v: Vec<String> = Vec::new();
    let mut i: usize = 0;
    proof {
        assert(lv.take(0) =~= Seq::<Seq<char>>::empty());
        assert(string_views(v@) =~= lv.take(0).filter_map(f));
    }
    while i < ls.len()
        invariant
            lv == str_views(ls@),
            lv == lines_of(text@),
            f == (|l: Seq<char>| rocm_card_model(l)),
            i <= ls@.len(),
            string_views(v@) == lv.take(i as int).filter_map(f),
        decreases ls@.len() - i,
    {
        let line = ls[i];
        proof {
            assert(lv.take(i as int + 1).drop_last() =~= lv.take(i as int));
            assert(lv.take(i as int + 1).last() == line@);
        }
        if contains_text(line, "GPU[") && contains_text(line, "Card model:") {
            let name = match nth_piece_of(line, ':', 2) {
                Some(p) => trim(p).to_owned(),
                None => "AMD GPU".to_owned(),
            };
            let ghost before = v@;
            v.push(name);
            proof {
                assert(string_views(v@) =~= string_views(before) + seq![name@]);
            }
        }
        i += 1;
    }
    proof {
        assert(lv.take(i as int) =~= lv);
    }
    v
}

/// How many lines of `rocm-smi --showid` output name a GPU (`GPU[`).
pub open spec fn rocm_gpu_line_count(text: Seq<char>) -> nat {
    lines_of(text).filter(|l: Seq<char>| has_chars(l, "GPU["@)).len()
}

/// Count the GPU lines of `rocm-smi --showid` output.
pub fn count_rocm_gpu_lines(text: &str) -> (n: usize)
    ensures
        n == rocm_gpu_line_count(text@),
{
    let ls = lines(text);
    let ghost lv = str_views(ls@);
    let ghost f = |l: Seq<char>| has_chars(l, "GPU["@);
    let mut n: usize = 0;
    let mut i: usize = 0;
    proof {
        assert(lv.take(0) =~= Seq::<Seq<char>>::empty());
        reveal(Seq::filter);
    }
    while i < ls.len()
        invariant
            lv == str_views(ls@),
            lv == lines_of(text@),
            f == (|l: Seq<char>| has_chars(l, "GPU["@)),
            i <= ls@.len(),
            n == lv.take(i as int).filter(f).len(),
            n <= i,
        decreases ls@.len() - i,
    {
        proof {
            reveal(Seq::filter);
            assert(lv.take(i as int + 1).drop_last() =~= lv.take(i as int));
            assert(lv.take(i as int + 1).last() == ls@[i as int]@);
        }
        if contains_text(ls[i], "GPU[") {
            n += 1;
        }
        i += 1;
    }
    proof {
        assert(lv.take(i as int) =~= lv);
    }
    n
}

} // verus!
