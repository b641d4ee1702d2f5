//! The decisions around text recognition: whether recognized text is meaningful, how the
//! recognized lines of an image are joined, which log entries a finished image produces,
//! how many workers run, and which part of a texture is cropped for an atlas region.
use vstd::prelude::*;
use crate::atlas::AtlasRegion;
use crate::text::{chars_of, is_whitespace, string_of, white_space};

verus! {

/// How often a milestone log entry is written, in images.
pub const MILESTONE_INTERVAL: usize = 50;

/// The recognized text of one image.
#[derive(Clone, Debug, PartialEq)]
pub struct OcrImageResult {
    pub path: String,
    pub has_text: bool,
    pub detected_text: String,
}

/// An entry of the recognition log.
#[derive(Clone, Debug, PartialEq)]
pub enum OcrLogEntry {
    Milestone { current: usize, total: usize, text_count: usize },
    Text { index: usize, total: usize, path: String, detected_text: String },
}

/// The recognized text of one atlas region.
#[derive(Clone, Debug, PartialEq)]
pub struct RegionOcrResult {
    pub name: String,
    pub has_text: bool,
    pub detected_text: String,
}

/// Progress of a recognition run.
#[derive(Clone, Debug, PartialEq)]
pub struct OcrProgress {
    pub current: usize,
    pub total: usize,
    pub path: String,
}

/// How recognition runs: on how many CPU cores, and whether on the GPU.
#[derive(Clone, Copy, Debug)]
pub struct OcrSettings {
    pub cpu_cores: usize,
    pub use_gpu: bool,
}

/// The counts behind the recognition log: images done and images with text.
#[derive(Clone, Copy, Debug)]
pub struct OcrLogState {
    pub completed: usize,
    pub text_count: usize,
}

/// The model files of the recognition engine.
#[derive(Clone, Debug, PartialEq)]
pub struct OcrEnginePaths {
    pub det_model: String,
    pub rec_model: String,
    pub charset: String,
    pub ori_model: Option<String>,
}

// ---------------------------------------------------------------------------
// Meaningful text
// ---------------------------------------------------------------------------

/// Whether `c` is alphabetic or numeric, as `char::is_alphanumeric` decides.
pub uninterp spec fn alphanumeric(c: char) -> bool;

/// Whether `c` is alphabetic, as `char::is_alphabetic` decides.
pub uninterp spec fn alphabetic(c: char) -> bool;

/// Calls `char::is_alphanumeric`. Claimed: the answer is `alphanumeric(c)`, a name for
/// std's Unicode `Alphabetic`/`Numeric` tables; the tables themselves are left unstated.
#[verifier::external_body]
fn is_alphanumeric(c: char) -> (b: bool)
    ensures
        b == alphanumeric(c),
{
    c.is_alphanumeric()
}

/// Calls `char::is_alphabetic`. Claimed: the answer is `alphabetic(c)`, a name for std's
/// Unicode `Alphabetic` table; the table itself is left unstated.
#[verifier::external_body]
fn is_alphabetic(c: char) -> (b: bool)
    ensures
        b == alphabetic(c),
{
    c.is_alphabetic()
}

/// A character that counts as text: a letter or digit, or one of CJK Unified Ideographs,
/// CJK Extension A, CJK Symbols and Punctuation, Halfwidth and Fullwidth Forms.
pub open spec fn meaningful_char(c: char) -> bool {
    alphanumeric(c) || alphabetic(c) || ('\u{4E00}' <= c <= '\u{9FFF}') || ('\u{3400}' <= c
        <= '\u{4DBF}') || ('\u{3000}' <= c <= '\u{303F}') || ('\u{FF00}' <= c <= '\u{FFEF}')
}

/// Some character of the text, not white space, counts as text.
pub open spec fn meaningful(t: Seq<char>) -> bool {
    exists|i: int| 0 <= i < t.len() && !white_space(t[i]) && meaningful_char(#[trigger] t[i])
}

fn meaningful_char_exec(c: char) -> (b: bool)
    ensures
        b == meaningful_char(c),
{
    is_alphanumeric(c) || is_alphabetic(c) || ('\u{4E00}' <= c && c <= '\u{9FFF}') || ('\u{3400}'
        <= c && c <= '\u{4DBF}') || ('\u{3000}' <= c && c <= '\u{303F}') || ('\u{FF00}' <= c && c
        <= '\u{FFEF}')
}

/// Whether recognized text holds something that reads as text rather than noise.
pub fn has_meaningful_text(text: &str) -> (b: bool)
    ensures
        b == meaningful(text@),
{
    let t = chars_of(text);
    let mut i: usize = 0;
    while i < t.len()
        invariant
            i <= t.len(),
            t@ == text@,
            forall|j: int| 0 <= j < i ==> !(!white_space(t@[j]) && meaningful_char(#[trigger] t@[j])),
        decreases t.len() - i,
    {
        if !is_whitespace(t[i]) && meaningful_char_exec(t[i]) {
            return true;
        }
        i = i + 1;
    }
    false
}

// ---------------------------------------------------------------------------
// Joining recognized lines
// ---------------------------------------------------------------------------

/// The non-empty texts of `lines`, joined with line feeds.
pub open spec fn join_nonempty(lines: Seq<Seq<char>>) -> Seq<char>
    decreases lines.len(),
{
    if lines.len() == 0 {
        seq![]
    } else {
        let head = join_nonempty(lines.drop_last());
        let l = lines.last();
        if l.len() == 0 {
            head
        } else if head.len() == 0 {
            l
        } else {
            head + seq!['\n'] + l
        }
    }
}

/// Joins the recognized lines of an image, leaving out empty ones.
pub fn join_detected_text(lines: &Vec<String>) -> (r: String)
    ensures
        r@ == join_nonempty(crate::scanner::str_views(lines@)),
{
    let ghost lv = crate::scanner::str_views(lines@);
    let mut out: Vec<char> = Vec::new();
    let mut k: usize = 0;
    while k < lines.len()
        invariant
            k <= lines.len(),
            lv == crate::scanner::str_views(lines@),
            out@ == join_nonempty(lv.take(k as int)),
        decreases lines.len() - k,
    {
        assert(lv.take(k + 1).drop_last() =~= lv.take(k as int));
        let l = chars_of(lines[k].as_str());
        if l.len() > 0 {
            if out.len() > 0 {
                out.push('\n');
            }
            out = crate::text::concat(out.as_slice(), l.as_slice());
        }
        k = k + 1;
    }
    assert(lv.take(k as int) =~= lv);
    string_of(out.as_slice())
}

/// The result for an image from its recognized lines.
pub fn image_result(path: String, lines: &Vec<String>) -> (r: OcrImageResult)
    ensures
        r.path@ == path@,
        r.detected_text@ == join_nonempty(crate::scanner::str_views(lines@)),
        r.has_text == meaningful(r.detected_text@),
{
    let detected_text = join_detected_text(lines);
    let has_text = has_meaningful_text(detected_text.as_str());
    OcrImageResult { path, has_text, detected_text }
}

/// The result for an atlas region from its recognized lines.
pub fn region_result(name: String, lines: &Vec<String>) -> (r: RegionOcrResult)
    ensures
        r.name@ == name@,
        r.detected_text@ == join_nonempty(crate::scanner::str_views(lines@)),
        r.has_text == meaningful(r.detected_text@),
{
    let detected_text = join_detected_text(lines);
    let has_text = has_meaningful_text(detected_text.as_str());
    RegionOcrResult { name, has_text, detected_text }
}

// ---------------------------------------------------------------------------
// Logging
// ---------------------------------------------------------------------------

/// A milestone is logged for the last image and for every fiftieth.
pub open spec fn milestone_due(current: usize, total: usize) -> bool {
    current == total || (current % MILESTONE_INTERVAL == 0 && current > 0)
}

/// Whether a milestone is logged after `current` of `total` images.
pub fn should_emit_milestone(current: usize, total: usize) -> (b: bool)
    ensures
        b == milestone_due(current, total),
{
    current == total || (current % MILESTONE_INTERVAL == 0 && current > 0)
}

/// A copy of a text.
fn copy_string(s: &String) -> (c: String)
    ensures
        c@ == s@,
{
    s.clone()
}

/// The counts after one more image: one more done, and one more with text if it has text.
pub open spec fn next_log_state(st: OcrLogState, has_text: bool) -> OcrLogState {
    OcrLogState {
        completed: (st.completed + 1) as usize,
        text_count: if has_text {
            (st.text_count + 1) as usize
        } else {
            st.text_count
        },
    }
}

/// The counts and the log entries after an image of a run of `total` finishes: a text
/// entry when it has text, then a milestone entry when one is due.
pub fn scan_log_step(st: OcrLogState, total: usize, result: &OcrImageResult) -> (r: (
    OcrLogState,
    Vec<OcrLogEntry>,
))
    requires
        st.completed < usize::MAX,
        st.text_count < usize::MAX,
    ensures
        r.0 == next_log_state(st, result.has_text),
        r.1.len() == (if result.has_text { 1int } else { 0int }) + (if milestone_due(
            r.0.completed,
            total,
        ) {
            1int
        } else {
            0int
        }),
        result.has_text ==> (match r.1@[0] {
            OcrLogEntry::Text { index, total: t, path, detected_text } => index == r.0.completed
                && t == total && path@ == result.path@ && detected_text@
                == result.detected_text@,
            _ => false,
        }),
        milestone_due(r.0.completed, total) ==> r.1@.last() == (OcrLogEntry::Milestone {
            current: r.0.completed,
            total,
            text_count: r.0.text_count,
        }),
{
    let completed = st.completed + 1;
    let text_count = if result.has_text { st.text_count + 1 } else { st.text_count };
    let mut logs: Vec<OcrLogEntry> = Vec::new();
    if result.has_text {
        logs.push(
            OcrLogEntry::Text {
                index: completed,
                total,
                path: copy_string(&result.path),
                detected_text: copy_string(&result.detected_text),
            },
        );
    }
    if should_emit_milestone(completed, total) {
        logs.push(OcrLogEntry::Milestone { current: completed, total, text_count });
    }
    (OcrLogState { completed, text_count }, logs)
}

// ---------------------------------------------------------------------------
// Settings and workers
// ---------------------------------------------------------------------------

/// The default number of cores: the machine's parallelism (4 when it is unknown), at
/// least 1.
pub open spec fn default_cores(available: Option<usize>) -> usize {
    match available {
        Some(n) => if n >= 1 {
            n
        } else {
            1
        },
        None => 4,
    }
}

impl OcrSettings {
    /// Settings for the machine's parallelism, on the CPU.
    pub fn for_parallelism(available: Option<usize>) -> (s: OcrSettings)
        ensures
            s.cpu_cores == default_cores(available),
            !s.use_gpu,
    {
        let n = match available {
            Some(n) => n,
            None => 4,
        };
        OcrSettings { cpu_cores: if n >= 1 { n } else { 1 }, use_gpu: false }
    }
}

/// How many workers recognize `total` images: the requested cores, at least 1 and at
/// most what the machine has, and no more than there are images.
pub open spec fn workers_for(cpu_cores: usize, max_cores: usize, total: usize) -> usize {
    let c = if cpu_cores < 1 {
        1
    } else if cpu_cores > max_cores {
        max_cores
    } else {
        cpu_cores
    };
    if c < total {
        c
    } else {
        total
    }
}

/// How many workers recognize `total` images.
pub fn worker_count(cpu_cores: usize, max_cores: usize, total: usize) -> (r: usize)
    requires
        max_cores >= 1,
    ensures
        r == workers_for(cpu_cores, max_cores, total),
{
    let c = if cpu_cores < 1 {
        1
    } else if cpu_cores > max_cores {
        max_cores
    } else {
        cpu_cores
    };
    if c < total {
        c
    } else {
        total
    }
}

// ---------------------------------------------------------------------------
// Region crops
// ---------------------------------------------------------------------------

/// How a crop is turned upright again.
#[derive(Clone, Copy, Debug, PartialEq, Eq, Structural)]
pub enum CropRotation {
    /// Not rotated.
    Upright,
    /// Turn 90° clockwise (LibGDX packs 90° counter-clockwise).
    Rotate90,
    /// Turn 270° clockwise (Cocos packs 90° clockwise).
    Rotate270,
}

/// The part of an `iw`×`ih` texture cropped for a region: its position clamped into the
/// texture, its size at least 1 and clamped to what is left, and the turn that undoes the
/// packing rotation (a plist's differs from an atlas's).
pub open spec fn crop_for(iw: u32, ih: u32, region: crate::atlas::RegionView, plist: bool) -> (
    u32,
    u32,
    u32,
    u32,
    CropRotation,
) {
    let w0: int = if region.width >= 1 { region.width as int } else { 1 };
    let h0: int = if region.height >= 1 { region.height as int } else { 1 };
    let x0: int = if region.x >= 0 { region.x as int } else { 0 };
    let y0: int = if region.y >= 0 { region.y as int } else { 0 };
    let xmax: int = if iw >= 1 { iw - 1 } else { 0 };
    let ymax: int = if ih >= 1 { ih - 1 } else { 0 };
    let x: int = if x0 < xmax { x0 } else { xmax };
    let y: int = if y0 < ymax { y0 } else { ymax };
    let wl: int = if iw >= x { iw - x } else { 0 };
    let hl: int = if ih >= y { ih - y } else { 0 };
    let w1: int = if w0 < wl { w0 } else { wl };
    let h1: int = if h0 < hl { h0 } else { hl };
    let w: int = if w1 >= 1 { w1 } else { 1 };
    let h: int = if h1 >= 1 { h1 } else { 1 };
    let rot = if !region.rotated {
        CropRotation::Upright
    } else if plist {
        CropRotation::Rotate270
    } else {
        CropRotation::Rotate90
    };
    (x as u32, y as u32, w as u32, h as u32, rot)
}

/// The crop of a region in an `iw`×`ih` texture of the given config type.
pub fn crop_region(iw: u32, ih: u32, region: &AtlasRegion, config_type: &str) -> (r: (
    u32,
    u32,
    u32,
    u32,
    CropRotation,
))
    ensures
        r == crop_for(iw, ih, region@, config_type@ == "plist"@),
{
    let w0: u32 = if region.width >= 1 { region.width as u32 } else { 1 };
    let h0: u32 = if region.height >= 1 { region.height as u32 } else { 1 };
    let x0: u32 = if region.x >= 0 { region.x as u32 } else { 0 };
    let y0: u32 = if region.y >= 0 { region.y as u32 } else { 0 };
    let xmax: u32 = iw.saturating_sub(1);
    let ymax: u32 = ih.saturating_sub(1);
    let x = if x0 < xmax { x0 } else { xmax };
    let y = if y0 < ymax { y0 } else { ymax };
    let wl = iw.saturating_sub(x);
    let hl = ih.saturating_sub(y);
    let w1 = if w0 < wl { w0 } else { wl };
    let h1 = if h0 < hl { h0 } else { hl };
    let w = if w1 >= 1 { w1 } else { 1 };
    let h = if h1 >= 1 { h1 } else { 1 };
    let plist = crate::text::chars_eq(chars_of(config_type).as_slice(), chars_of("plist").as_slice());
    let rot = if !region.rotated {
        CropRotation::Upright
    } else if plist {
        CropRotation::Rotate270
    } else {
        CropRotation::Rotate90
    };
    (x, y, w, h, rot)
}

// ---------------------------------------------------------------------------
// Engine files
// ---------------------------------------------------------------------------

impl OcrEnginePaths {
    /// The model files in a models directory, the orientation model included when it is
    /// there.
    pub fn new(models_dir: &str, has_ori_model: bool) -> (r: OcrEnginePaths)
        ensures
            r.det_model@ == crate::path::joined(models_dir@, "PP-OCRv5_mobile_det.mnn"@),
            r.rec_model@ == crate::path::joined(models_dir@, "PP-OCRv5_mobile_rec.mnn"@),
            r.charset@ == crate::path::joined(models_dir@, "ppocr_keys_v5.txt"@),
            has_ori_model ==> r.ori_model is Some && r.ori_model->0@ == crate::path::joined(
                models_dir@,
                "PP-LCNet_textline_ori.mnn"@,
            ),
            !has_ori_model ==> r.ori_model is None,
    {
        let d = chars_of(models_dir);
        let det = crate::path::join_exec(d.as_slice(), chars_of("PP-OCRv5_mobile_det.mnn").as_slice());
        let rec = crate::path::join_exec(d.as_slice(), chars_of("PP-OCRv5_mobile_rec.mnn").as_slice());
        let keys = crate::path::join_exec(d.as_slice(), chars_of("ppocr_keys_v5.txt").as_slice());
        let ori = if has_ori_model {
            let o = crate::path::join_exec(
                d.as_slice(),
                chars_of("PP-LCNet_textline_ori.mnn").as_slice(),
            );
            Some(string_of(o.as_slice()))
        } else {
            None
        };
        OcrEnginePaths {
            det_model: string_of(det.as_slice()),
            rec_model: string_of(rec.as_slice()),
            charset: string_of(keys.as_slice()),
            ori_model: ori,
        }
    }
}

// ---------------------------------------------------------------------------
// Log buffer
// ---------------------------------------------------------------------------

/// The buffered recognition log.
pub struct OcrLogBuffer {
    entries: Vec<OcrLogEntry>,
}

/// A copy of a log entry.
pub fn copy_log_entry(e: &OcrLogEntry) -> (c: OcrLogEntry)
    ensures
        c == *e,
{
    match e {
        OcrLogEntry::Milestone { current, total, text_count } => OcrLogEntry::Milestone {
            current: *current,
            total: *total,
            text_count: *text_count,
        },
        OcrLogEntry::Text { index, total, path, detected_text } => OcrLogEntry::Text {
            index: *index,
            total: *total,
            path: path.clone(),
            detected_text: detected_text.clone(),
        },
    }
}

impl View for OcrLogBuffer {
    type V = Seq<OcrLogEntry>;

    closed spec fn view(&self) -> Seq<OcrLogEntry> {
        self.entries@
    }
}

impl OcrLogBuffer {
    /// An empty log.
    pub fn new() -> (r: OcrLogBuffer)
        ensures
            r@ == Seq::<OcrLogEntry>::empty(),
    {
        OcrLogBuffer { entries: Vec::new() }
    }

    /// Appends an entry.
    pub fn push(&mut self, entry: OcrLogEntry)
        ensures
            final(self)@ == old(self)@.push(entry),
    {
        self.entries.push(entry);
    }

    /// Drops every entry.
    pub fn clear(&mut self)
        ensures
            final(self)@ == Seq::<OcrLogEntry>::empty(),
    {
        self.entries.clear();
    }

    /// A copy of the entries, in order.
    pub fn entries(&self) -> (r: Vec<OcrLogEntry>)
        ensures
            r@ == self@,
    {
        let mut r: Vec<OcrLogEntry> = Vec::new();
        let mut k: usize = 0;
        while k < self.entries.len()
            invariant
                k <= self.entries.len(),
                r@ =~= self@.take(k as int),
            decreases self.entries.len() - k,
        {
            r.push(copy_log_entry(&self.entries[k]));
            k = k + 1;
            assert(r@ =~= self@.take(k as int));
        }
        r
    }
}


// ---------------------------------------------------------------------------
// Laws
// ---------------------------------------------------------------------------

/// A region's crop lies inside a non-empty texture and is at least one pixel each way.
pub proof fn law_crop_stays_inside_texture(
    iw: u32,
    ih: u32,
    region: crate::atlas::RegionView,
    plist: bool,
)
    requires
        iw >= 1,
        ih >= 1,
    ensures
        ({
            let (x, y, w, h, _) = crop_for(iw, ih, region, plist);
            &&& w >= 1 && h >= 1
            &&& x + w <= iw
            &&& y + h <= ih
        }),
{
}

/// A rotated region's crop is turned back one way for a plist and the other way for an
/// atlas; an unrotated one is left as it is.
pub proof fn law_crop_rotation_matches_packer(
    iw: u32,
    ih: u32,
    region: crate::atlas::RegionView,
    plist: bool,
)
    ensures
        crop_for(iw, ih, region, plist).4 == (if !region.rotated {
            CropRotation::Upright
        } else if plist {
            CropRotation::Rotate270
        } else {
            CropRotation::Rotate90
        }),
{
}

/// The log counts never have more images with text than images done, and each image
/// adds exactly one to the images done.
pub proof fn law_log_counts_stay_ordered(st: OcrLogState, has_text: bool)
    requires
        st.text_count <= st.completed < usize::MAX,
    ensures
        next_log_state(st, has_text).text_count <= next_log_state(st, has_text).completed,
        next_log_state(st, has_text).completed == st.completed + 1,
{
}

/// The last image of a run always logs a milestone.
pub proof fn law_last_image_logs_milestone(st: OcrLogState, total: usize, has_text: bool)
    requires
        st.completed + 1 == total,
    ensures
        milestone_due(next_log_state(st, has_text).completed, total),
{
}

/// How many of the images `1..=n` of a run of `total` log a milestone.
pub open spec fn milestones_through(n: nat, total: usize) -> nat
    decreases n,
{
    if n == 0 {
        0
    } else {
        milestones_through((n - 1) as nat, total) + if n <= usize::MAX && milestone_due(
            n as usize,
            total,
        ) {
            1nat
        } else {
            0nat
        }
    }
}

proof fn lemma_milestones_before_last(n: nat, total: usize)
    requires
        n < total,
    ensures
        milestones_through(n, total) == n / 50,
    decreases n,
{
    if n > 0 {
        lemma_milestones_before_last((n - 1) as nat, total);
        assert(((n - 1) as nat) / 50 + (if n % 50 == 0 { 1int } else { 0int }) == n / 50)
            by (nonlinear_arith)
            requires
                n > 0,
        ;
    }
}

/// A run of `total` images logs one milestone every 50 images and one at the last image:
/// `ceil(total / 50)` in all, the last image always among them.
pub proof fn law_milestones_per_run(total: usize)
    requires
        total >= 1,
    ensures
        milestones_through(total as nat, total) == (total - 1) / 50 + 1,
        milestone_due(total, total),
{
    lemma_milestones_before_last((total - 1) as nat, total);
}

/// With at least one image there is at least one worker, and never more than the images
/// or the machine's cores.
pub proof fn law_worker_count_in_range(cpu_cores: usize, max_cores: usize, total: usize)
    requires
        max_cores >= 1,
        total >= 1,
    ensures
        1 <= workers_for(cpu_cores, max_cores, total) <= total,
        workers_for(cpu_cores, max_cores, total) <= max_cores,
{
}

/// Text is meaningful no matter what white space surrounds it.
pub proof fn law_meaningful_ignores_padding(a: Seq<char>, t: Seq<char>, b: Seq<char>)
    requires
        forall|i: int| 0 <= i < a.len() ==> white_space(#[trigger] a[i]),
        forall|i: int| 0 <= i < b.len() ==> white_space(#[trigger] b[i]),
    ensures
        meaningful(a + t + b) == meaningful(t),
{
    let s = a + t + b;
    if meaningful(s) {
        let i = choose|i: int| 0 <= i < s.len() && !white_space(s[i]) && meaningful_char(#[trigger] s[i]);
        if i < a.len() {
            assert(s[i] == a[i]);
        } else if i < a.len() + t.len() {
            assert(s[i] == t[i - a.len()]);
            assert(!white_space(t[i - a.len()]) && meaningful_char(t[i - a.len()]));
        } else {
            assert(s[i] == b[i - a.len() - t.len()]);
        }
    }
    if meaningful(t) {
        let i = choose|i: int| 0 <= i < t.len() && !white_space(t[i]) && meaningful_char(#[trigger] t[i]);
        assert(s[i + a.len()] == t[i]);
    }
}

/// Within range, the requested cores are honoured: asking for `cpu_cores` cores, with at
/// least that many on the machine and at least that many images, runs that many workers.
/// Asking for more than the machine has runs one per core (or per image, when fewer), and
/// asking for none runs one.
pub proof fn law_worker_count_honours_request(cpu_cores: usize, max_cores: usize, total: usize)
    requires
        max_cores >= 1,
        total >= 1,
    ensures
        1 <= cpu_cores <= max_cores && cpu_cores <= total ==> workers_for(
            cpu_cores,
            max_cores,
            total,
        ) == cpu_cores,
        cpu_cores > max_cores ==> workers_for(cpu_cores, max_cores, total) == (if max_cores
            <= total {
            max_cores
        } else {
            total
        }),
        cpu_cores == 0 ==> workers_for(cpu_cores, max_cores, total) == 1,
        workers_for(cpu_cores, max_cores, total) <= cpu_cores || cpu_cores == 0,
{
}

/// A region that lies wholly inside its texture is cropped at exactly its own rectangle,
/// rotated or not: the rotation is applied to that crop, never to its size.
pub proof fn law_crop_keeps_region_inside_texture(
    iw: u32,
    ih: u32,
    region: crate::atlas::RegionView,
    plist: bool,
)
    requires
        0 <= region.x,
        0 <= region.y,
        1 <= region.width,
        1 <= region.height,
        region.x + region.width <= iw,
        region.y + region.height <= ih,
    ensures
        ({
            let (x, y, w, h, _) = crop_for(iw, ih, region, plist);
            &&& x == region.x
            &&& y == region.y
            &&& w == region.width
            &&& h == region.height
        }),
{
}

/// A text counts as meaningful exactly when one of its characters that is not white space
/// is a letter or digit as `char::is_alphanumeric` or `char::is_alphabetic` decide, or lies
/// in the CJK ideograph, CJK extension A, CJK symbols and punctuation, or full-width forms
/// blocks.
pub proof fn law_meaningful_text(t: Seq<char>)
    ensures
        meaningful(t) <==> exists|i: int|
            0 <= i < t.len() && !white_space(#[trigger] t[i]) && (alphanumeric(t[i])
                || alphabetic(t[i]) || ('\u{4E00}' <= t[i] <= '\u{9FFF}') || ('\u{3400}' <= t[i]
                <= '\u{4DBF}') || ('\u{3000}' <= t[i] <= '\u{303F}') || ('\u{FF00}' <= t[i]
                <= '\u{FFEF}')),
{
}

/// Every character that `char::is_alphanumeric` accepts and that is not white space makes
/// any text holding it meaningful, wherever it stands.
pub proof fn law_alphanumeric_makes_text_meaningful(a: Seq<char>, c: char, b: Seq<char>)
    requires
        alphanumeric(c),
        !white_space(c),
    ensures
        meaningful(a + seq![c] + b),
{
    let t = a + seq![c] + b;
    assert(t[a.len() as int] == c);
}

} // verus!
