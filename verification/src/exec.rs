use vstd::prelude::*;
use crate::elf::{Elf64Phdr, parse_header, parse_phdr, phdr_of, header_of, has_elf_magic, bytes_value, law_header_fields, law_phdr_fields, EHDR_SIZE, PHDR_SIZE, PT_LOAD};
use crate::context::{Context, MAX_OPEN_FILES};
use crate::trap::TrapFrame;

verus! {

/// One loadable segment: `filesz` bytes at `offset` in the file go to
/// `vaddr`, and the rest of `memsz` is zero-filled.
#[derive(Debug, Clone, Copy, PartialEq, Eq, Structural)]
pub struct LoadSegment {
    pub offset: u64,
    pub vaddr: u64,
    pub filesz: u64,
    pub memsz: u64,
}

/// How to load a program: its entry point, the page-aligned span
/// `span_start..span_start + span_bytes` covering every loadable segment
/// (backed by `span_nframes` contiguous frames), and the segments.
#[derive(Debug, Clone, PartialEq, Eq)]
pub struct ExecPlan {
    /// Position of the program's file among the root directory's children.
    pub file: usize,
    pub entry: u64,
    pub span_start: u64,
    pub span_bytes: u64,
    pub span_nframes: u64,
    pub segments: Vec<LoadSegment>,
}

/// The loadable headers among the first `n` program headers, in order.
pub open spec fn loads(b: Seq<u8>, phoff: int, n: int) -> Seq<Elf64Phdr>
    decreases n,
{
    if n <= 0 {
        Seq::empty()
    } else {
        let p = phdr_of(b, phoff, n - 1);
        loads(b, phoff, n - 1) + (if p.p_type == PT_LOAD { seq![p] } else { Seq::empty() })
    }
}

/// A loadable header whose memory range fits in the address space and
/// whose file bytes lie inside the image of `len` bytes.
pub open spec fn load_ok(p: Elf64Phdr, len: int) -> bool {
    p.p_vaddr + p.p_memsz <= u64::MAX && p.p_offset + p.p_filesz <= len
}

/// Every header of `s` is `load_ok`.
pub open spec fn all_load_ok(s: Seq<Elf64Phdr>, len: int) -> bool {
    forall|i: int| 0 <= i < s.len() ==> #[trigger] load_ok(s[i], len)
}

/// The segment a loadable header describes.
pub open spec fn segment_of(p: Elf64Phdr) -> LoadSegment {
    LoadSegment { offset: p.p_offset, vaddr: p.p_vaddr, filesz: p.p_filesz, memsz: p.p_memsz }
}

/// Lowest start address of the segments `s`.
pub open spec fn span_min(s: Seq<Elf64Phdr>) -> int
    decreases s.len(),
{
    if s.len() == 0 {
        u64::MAX as int
    } else {
        let m = span_min(s.drop_last());
        if (s.last().p_vaddr as int) < m { s.last().p_vaddr as int } else { m }
    }
}

/// Highest end address of the segments `s`.
pub open spec fn span_max(s: Seq<Elf64Phdr>) -> int
    decreases s.len(),
{
    if s.len() == 0 {
        0
    } else {
        let m = span_max(s.drop_last());
        let e = s.last().p_vaddr + s.last().p_memsz;
        if e > m { e } else { m }
    }
}

/// The image `b` can be loaded: it has an ELF header, its program-header
/// table lies inside it, it has at least one loadable segment, each of
/// which is `load_ok`, and the end of the span can be rounded up to a page.
pub open spec fn loadable(b: Seq<u8>) -> bool {
    let h = header_of(b);
    let ls = loads(b, h.e_phoff as int, h.e_phnum as int);
    &&& b.len() >= EHDR_SIZE && has_elf_magic(b)
    &&& h.e_phoff + h.e_phnum * PHDR_SIZE <= b.len()
    &&& ls.len() > 0
    &&& all_load_ok(ls, b.len() as int)
    &&& span_max(ls) + 0xFFF <= u64::MAX
}

/// The plan for a loadable image `b`, stored as file `file`.
pub open spec fn plan_matches(b: Seq<u8>, file: usize, p: ExecPlan) -> bool {
    let h = header_of(b);
    let ls = loads(b, h.e_phoff as int, h.e_phnum as int);
    let start = (span_min(ls) as u64) & !0xFFFu64;
    let end = ((span_max(ls) + 0xFFF) as u64) & !0xFFFu64;
    &&& p.file == file
    &&& p.entry == h.e_entry
    &&& p.span_start == start
    &&& p.span_bytes == end - start
    &&& p.span_nframes == (p.span_bytes + 0xFFF) / 0x1000
    &&& p.segments@ == ls.map_values(|q: Elf64Phdr| segment_of(q))
}

proof fn lemma_span_bounds(s: Seq<Elf64Phdr>, len: int)
    requires
        s.len() > 0,
        all_load_ok(s, len),
    ensures
        0 <= span_min(s) <= span_max(s) <= u64::MAX,
    decreases s.len(),
{
    let t = s.drop_last();
    assert(load_ok(s[s.len() - 1], len));
    if s.len() > 1 {
        assert forall|i: int| 0 <= i < t.len() implies #[trigger] load_ok(t[i], len) by {
            assert(load_ok(s[i], len));
        }
        lemma_span_bounds(t, len);
    } else {
        assert(span_min(t) == u64::MAX as int);
        assert(span_max(t) == 0);
    }
}

/// The loadable headers among the first `m` are a prefix of those among
/// the first `n`, for `m <= n`.
proof fn lemma_loads_prefix(b: Seq<u8>, phoff: int, m: int, n: int)
    requires
        0 <= m <= n,
    ensures
        loads(b, phoff, m).len() <= loads(b, phoff, n).len(),
        forall|k: int| 0 <= k < loads(b, phoff, m).len() ==>
            #[trigger] loads(b, phoff, n)[k] == loads(b, phoff, m)[k],
    decreases n - m,
{
    if m < n {
        lemma_loads_prefix(b, phoff, m, n - 1);
        assert(n > 0);
        let prev = loads(b, phoff, n - 1);
        let next = loads(b, phoff, n);
        assert forall|k: int| 0 <= k < prev.len() implies #[trigger] next[k] == prev[k] by {}
    }
}

/// Plans loading the program image `b`, stored as file `file`: `None` when
/// the image is not `loadable`.
pub fn plan_load(b: &[u8], file: usize) -> (r: Option<ExecPlan>)
    ensures
        match r {
            Some(p) => loadable(b@) && plan_matches(b@, file, p),
            None => !loadable(b@),
        },
{
    let h = match parse_header(b) {
        Some(h) => h,
        None => return None,
    };
    let len = b.len() as u64;
    let phnum = h.e_phnum as u64;
    if h.e_phoff > len || phnum * (PHDR_SIZE as u64) > len - h.e_phoff {
        return None;
    }
    let phoff = h.e_phoff as usize;
    let ghost ls_all = loads(b@, phoff as int, phnum as int);
    let mut segments: Vec<LoadSegment> = Vec::new();
    let mut vmin: u64 = u64::MAX;
    let mut vmax: u64 = 0;
    let mut i: usize = 0;
    while i < h.e_phnum as usize
        invariant
            i <= phnum,
            phnum == h.e_phnum,
            h == header_of(b@),
            len == b@.len(),
            phoff == h.e_phoff,
            phoff + phnum * PHDR_SIZE <= b@.len(),
            ls_all == loads(b@, phoff as int, phnum as int),
            segments@ == loads(b@, phoff as int, i as int).map_values(|q: Elf64Phdr| segment_of(q)),
            all_load_ok(loads(b@, phoff as int, i as int), b@.len() as int),
            vmin == span_min(loads(b@, phoff as int, i as int)),
            vmax == span_max(loads(b@, phoff as int, i as int)),
        decreases phnum - i,
    {
        proof {
            assert((i + 1) * PHDR_SIZE <= phnum * PHDR_SIZE) by (nonlinear_arith)
                requires i + 1 <= phnum;
        }
        let p = parse_phdr(b, phoff, i);
        let ghost prev = loads(b@, phoff as int, i as int);
        let ghost next = loads(b@, phoff as int, i as int + 1);
        if p.p_type == PT_LOAD {
            if p.p_memsz > u64::MAX - p.p_vaddr || p.p_filesz > len || p.p_offset > len - p.p_filesz {
                proof {
                    assert(next == prev.push(p));
                    assert(next[prev.len() as int] == p);
                    lemma_loads_prefix(b@, phoff as int, i as int + 1, phnum as int);
                    assert(ls_all[prev.len() as int] == p);
                    assert(!load_ok(ls_all[prev.len() as int], b@.len() as int));
                }
                return None;
            }
            segments.push(LoadSegment { offset: p.p_offset, vaddr: p.p_vaddr, filesz: p.p_filesz, memsz: p.p_memsz });
            if p.p_vaddr < vmin {
                vmin = p.p_vaddr;
            }
            if p.p_vaddr + p.p_memsz > vmax {
                vmax = p.p_vaddr + p.p_memsz;
            }
            proof {
                assert(next =~= prev.push(p));
                assert(next.drop_last() =~= prev);
                assert(segments@ =~= next.map_values(|q: Elf64Phdr| segment_of(q)));
                assert forall|k: int| 0 <= k < next.len() implies #[trigger] load_ok(next[k], b@.len() as int) by {
                    if k < prev.len() {
                        assert(next[k] == prev[k]);
                    }
                }
            }
        } else {
            proof {
                assert(next =~= prev);
            }
        }
        i = i + 1;
    }
    if segments.len() == 0 {
        return None;
    }
    if vmax > u64::MAX - 0xFFF {
        return None;
    }
    proof {
        lemma_span_bounds(ls_all, b@.len() as int);
    }
    let span_start = vmin & !0xFFFu64;
    let vmax_up: u64 = vmax + 0xFFF;
    let span_end = vmax_up & !0xFFFu64;
    assert(span_start <= span_end && span_end <= u64::MAX - 0xFFF) by (bit_vector)
        requires
            vmin <= vmax,
            vmax <= u64::MAX - 0xFFF,
            vmax_up == vmax + 0xFFF,
            span_start == vmin & !0xFFFu64,
            span_end == vmax_up & !0xFFFu64;
    let span_bytes = span_end - span_start;
    let span_nframes = (span_bytes + 0xFFF) / 0x1000;
    Some(ExecPlan { file, entry: h.e_entry, span_start, span_bytes, span_nframes, segments })
}

proof fn lemma_span_contains(s: Seq<Elf64Phdr>, i: int)
    requires
        0 <= i < s.len(),
    ensures
        span_min(s) <= s[i].p_vaddr,
        s[i].p_vaddr + s[i].p_memsz <= span_max(s),
    decreases s.len(),
{
    if i < s.len() - 1 {
        lemma_span_contains(s.drop_last(), i);
        assert(s.drop_last()[i] == s[i]);
    }
}

/// The span of a plan covers every segment it loads, starts on a page
/// boundary, and its frames hold all of it: mapping the span in one piece
/// maps every segment, and no page is mapped twice.
pub proof fn law_plan_covers_segments(b: Seq<u8>, file: usize, p: ExecPlan)
    requires
        loadable(b),
        plan_matches(b, file, p),
    ensures
        p.span_start % 4096 == 0,
        p.span_nframes * 4096 >= p.span_bytes,
        forall|k: int| 0 <= k < p.segments@.len() ==> {
            let s = #[trigger] p.segments@[k];
            &&& p.span_start <= s.vaddr
            &&& s.vaddr + s.memsz <= p.span_start + p.span_bytes
        },
{
    let h = header_of(b);
    let ls = loads(b, h.e_phoff as int, h.e_phnum as int);
    lemma_span_bounds(ls, b.len() as int);
    let lo = span_min(ls) as u64;
    let hi = span_max(ls) as u64;
    let hi_up = (span_max(ls) + 0xFFF) as u64;
    let start = lo & !0xFFFu64;
    let end = hi_up & !0xFFFu64;
    assert(start <= lo && start % 4096 == 0 && end >= hi && start <= end) by (bit_vector)
        requires
            lo <= hi,
            hi <= u64::MAX - 0xFFF,
            hi_up == hi + 0xFFF,
            start == lo & !0xFFFu64,
            end == hi_up & !0xFFFu64;
    assert forall|k: int| 0 <= k < p.segments@.len() implies {
        let s = #[trigger] p.segments@[k];
        &&& p.span_start <= s.vaddr
        &&& s.vaddr + s.memsz <= p.span_start + p.span_bytes
    } by {
        assert(p.segments@[k] == segment_of(ls[k]));
        lemma_span_contains(ls, k);
    }
    let n = p.span_bytes;
    assert(((n + 0xFFF) / 0x1000) * 4096 >= n) by (nonlinear_arith);
}

/// The top of the user stack of a loaded program.
pub const USER_STACK_TOP: u64 = 0xFFFFFFFF80100000;
/// Base of the user stack of a loaded program.
pub const USER_STACK_BASE: u64 = 0xFFFFFFFF800FE000;
/// Bytes of the user stack of a loaded program.
pub const USER_STACK_BYTES: usize = 8192;

/// The last step of a successful exec: the task resumes at `entry` in the
/// address space rooted at `new_root`, with every descriptor closed, and
/// the call returns 0.
pub fn complete_exec(ctx: &mut Context, frame: &mut TrapFrame, entry: u64, new_root: u64)
    ensures
        *final(frame) == (TrapFrame { rip: entry, rax: 0, ..*old(frame) }),
        final(ctx).page_table_root == new_root,
        forall|i: int| 0 <= i < MAX_OPEN_FILES ==> #[trigger] final(ctx).open_files[i] == (0u64, 0usize),
        final(ctx).rsp == old(ctx).rsp,
        final(ctx).kernel_stack == old(ctx).kernel_stack,
        final(ctx).state == old(ctx).state,
        final(ctx).id == old(ctx).id,
        final(ctx).saved_state == old(ctx).saved_state,
{
    frame.rip = entry;
    ctx.page_table_root = new_root;
    let mut i: usize = 0;
    while i < MAX_OPEN_FILES
        invariant
            i <= MAX_OPEN_FILES,
            ctx.page_table_root == new_root,
            ctx.rsp == old(ctx).rsp,
            ctx.kernel_stack == old(ctx).kernel_stack,
            ctx.state == old(ctx).state,
            ctx.id == old(ctx).id,
            ctx.saved_state == old(ctx).saved_state,
            forall|j: int| 0 <= j < i ==> #[trigger] ctx.open_files[j] == (0u64, 0usize),
        decreases MAX_OPEN_FILES - i,
    {
        ctx.open_files[i] = (0, 0);
        i = i + 1;
    }
    frame.rax = 0;
}


/// Each loadable header among the first `n` is one of those `n` headers.
proof fn lemma_loads_from(b: Seq<u8>, phoff: int, n: int)
    ensures
        forall|k: int| 0 <= k < loads(b, phoff, n).len() ==>
            exists|i: int| 0 <= i < n && #[trigger] loads(b, phoff, n)[k] == phdr_of(b, phoff, i),
    decreases n,
{
    if n > 0 {
        lemma_loads_from(b, phoff, n - 1);
        let prev = loads(b, phoff, n - 1);
        let cur = loads(b, phoff, n);
        assert forall|k: int| 0 <= k < cur.len() implies
            exists|i: int| 0 <= i < n && #[trigger] cur[k] == phdr_of(b, phoff, i) by {
            if k < prev.len() {
                assert(cur[k] == prev[k]);
                let i = choose|i: int| 0 <= i < n - 1 && #[trigger] prev[k] == phdr_of(b, phoff, i);
                assert(cur[k] == phdr_of(b, phoff, i));
            } else {
                assert(cur[k] == phdr_of(b, phoff, n - 1));
            }
        }
    }
}

/// Segment `s` holds the full little-endian values of program header `i`
/// of image `b`: the header lies at the value of header bytes 32..40 plus
/// `i` headers, `i` is below the value of header bytes 56..58, and the
/// segment's offset, address, file size and memory size are the values of
/// that header's bytes 8..16, 16..24, 32..40 and 40..48.
pub open spec fn segment_read_from(b: Seq<u8>, s: LoadSegment, i: int) -> bool {
    let o = bytes_value(b, 32, 8) + i * PHDR_SIZE;
    &&& 0 <= i < bytes_value(b, 56, 2)
    &&& s.offset == bytes_value(b, o + 8, 8)
    &&& s.vaddr == bytes_value(b, o + 16, 8)
    &&& s.filesz == bytes_value(b, o + 32, 8)
    &&& s.memsz == bytes_value(b, o + 40, 8)
}

/// Segment `s` is read from some program header of image `b`.
pub open spec fn segment_from_header(b: Seq<u8>, s: LoadSegment) -> bool {
    exists|i: int| #[trigger] segment_read_from(b, s, i)
}

/// A plan reads the image's fields as full little-endian values: its entry
/// point is the value of header bytes 24..32, and each of its segments is
/// read from one of the image's program headers.
pub proof fn law_plan_fields(b: Seq<u8>, file: usize, p: ExecPlan)
    requires
        loadable(b),
        plan_matches(b, file, p),
    ensures
        p.entry == bytes_value(b, 24, 8),
        forall|k: int| 0 <= k < p.segments@.len() ==> segment_from_header(b, #[trigger] p.segments@[k]),
{
    law_header_fields(b);
    let h = header_of(b);
    let ls = loads(b, h.e_phoff as int, h.e_phnum as int);
    lemma_loads_from(b, h.e_phoff as int, h.e_phnum as int);
    assert forall|k: int| 0 <= k < p.segments@.len() implies segment_from_header(b, #[trigger] p.segments@[k]) by {
        assert(p.segments@[k] == segment_of(ls[k]));
        let i = choose|i: int| 0 <= i < h.e_phnum && #[trigger] ls[k] == phdr_of(b, h.e_phoff as int, i);
        assert(i * PHDR_SIZE + PHDR_SIZE == (i + 1) * PHDR_SIZE) by (nonlinear_arith);
        assert((i + 1) * PHDR_SIZE <= h.e_phnum * PHDR_SIZE) by (nonlinear_arith)
            requires i + 1 <= h.e_phnum;
        law_phdr_fields(b, h.e_phoff as int, i);
        assert(segment_read_from(b, p.segments@[k], i));
    }
}

} // verus!
