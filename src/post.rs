//! One post: classifying the API's answer, naming the archive entry, and
//! planning the downloads of its images and attachments.
use vstd::prelude::*;

use crate::crawl::FetchOutcome;
use crate::error::DownloaderError;
use crate::text::{
    basename, chars_of, decimal, push_all, push_padded, split_chars, string_of, string_views,
    views, zero_pad,
};

verus! {

/// An asset of a post: where to download it and its file extension.
#[derive(Debug, Clone)]
pub struct CafeFile {
    pub downurl: String,
    pub filetype: String,
}

/// The assets of a post.
#[derive(Debug, Clone)]
pub struct CafeAddFiles {
    pub addfile: Vec<CafeFile>,
}

impl CafeAddFiles {
    /// No assets.
    pub fn new() -> (r: Self)
        ensures
            r.addfile@.len() == 0,
    {
        CafeAddFiles { addfile: Vec::new() }
    }
}

/// The API's answer for one post ID.
#[derive(Debug, Clone)]
pub struct CafeApiResponse {
    pub addfiles: Option<CafeAddFiles>,
    /// The URLs of the post's images, in the order they appear in the post.
    pub image_list: Option<Vec<String>>,
    /// The title.
    pub name: Option<String>,
    /// The publication date; its first eight characters name the entry.
    pub date: Option<String>,
    /// The body text.
    pub content: Option<String>,
    /// The exception code of a refused request.
    pub exception: Option<String>,
}

/// The exception code of a session the API no longer accepts.
pub open spec fn not_authenticated_code() -> Seq<char> {
    "MCAFE_NOT_AUTHENTICATED"@
}

/// The exception code of a deleted post.
pub open spec fn deleted_code() -> Seq<char> {
    "MCAFE_BBS_BULLETIN_READ_DELALREADY"@
}

/// How an answer is taken: a non-empty exception code refuses the post (a
/// deleted post being only a miss); otherwise the date and then the title must
/// be there.
pub open spec fn classify_spec(resp: CafeApiResponse) -> FetchOutcome {
    match resp.exception {
        Some(e) if e@.len() > 0 => if e@ == not_authenticated_code() {
            FetchOutcome::Rejected(DownloaderError::NotAuthorized)
        } else if e@ == deleted_code() {
            FetchOutcome::Deleted
        } else {
            FetchOutcome::Rejected(DownloaderError::APIException(e))
        },
        _ => if resp.date is None {
            FetchOutcome::Rejected(DownloaderError::APIDateMissing)
        } else if resp.name is None {
            FetchOutcome::Rejected(DownloaderError::APINameMissing)
        } else {
            FetchOutcome::Post
        },
    }
}

/// Classifies the API's answer for one post ID.
pub fn classify_response(resp: &CafeApiResponse) -> (r: FetchOutcome)
    ensures
        r == classify_spec(*resp),
{
    if let Some(e) = &resp.exception {
        if !e.as_str().is_empty() {
            if *e == "MCAFE_NOT_AUTHENTICATED".to_owned() {
                return FetchOutcome::Rejected(DownloaderError::NotAuthorized);
            }
            if *e == "MCAFE_BBS_BULLETIN_READ_DELALREADY".to_owned() {
                return FetchOutcome::Deleted;
            }
            return FetchOutcome::Rejected(DownloaderError::APIException(e.clone()));
        }
    }
    if resp.date.is_none() {
        FetchOutcome::Rejected(DownloaderError::APIDateMissing)
    } else if resp.name.is_none() {
        FetchOutcome::Rejected(DownloaderError::APINameMissing)
    } else {
        FetchOutcome::Post
    }
}

/// The extended grapheme clusters of a string, in order.
pub uninterp spec fn graphemes_of(s: Seq<char>) -> Seq<Seq<char>>;

/// Relies on `unicode_segmentation::UnicodeSegmentation::graphemes(s, true)`:
/// the extended grapheme clusters of `s`, in order.
#[verifier::external_body]
fn graphemes(s: &str) -> (r: Vec<String>)
    ensures
        string_views(r@) == graphemes_of(s@),
{
    unicode_segmentation::UnicodeSegmentation::graphemes(s, true).map(|g| g.to_string()).collect()
}

/// The clusters joined back into one string.
pub open spec fn concat(gs: Seq<Seq<char>>) -> Seq<char>
    decreases gs.len(),
{
    if gs.len() == 0 {
        Seq::empty()
    } else {
        concat(gs.drop_last()) + gs.last()
    }
}

/// The first `max` clusters, or all of them where there are fewer, joined.
pub open spec fn take_graphemes(gs: Seq<Seq<char>>, max: nat) -> Seq<char> {
    if gs.len() <= max {
        concat(gs)
    } else {
        concat(gs.take(max as int))
    }
}

/// Joins the first `max_length` clusters.
pub fn truncate_graphemes(gs: &Vec<String>, max_length: usize) -> (r: String)
    ensures
        r@ == take_graphemes(string_views(gs@), max_length as nat),
{
    let ghost gv = string_views(gs@);
    let n = if gs.len() <= max_length { gs.len() } else { max_length };
    let mut out: Vec<char> = Vec::new();
    let mut i: usize = 0;
    while i < n
        invariant
            n <= gs.len(),
            gv == string_views(gs@),
            i <= n,
            out@ == concat(gv.take(i as int)),
        decreases n - i,
    {
        let gc = chars_of(gs[i].as_str());
        push_all(&mut out, &gc);
        assert(gv.take(i + 1).drop_last() =~= gv.take(i as int));
        i = i + 1;
    }
    if gs.len() <= max_length {
        assert(gv.take(i as int) =~= gv);
    }
    string_of(&out)
}

/// Cuts `input` to its first `max_length` grapheme clusters.
pub fn truncate_str_to_length(input: &str, max_length: usize) -> (r: String)
    ensures
        r@ == take_graphemes(graphemes_of(input@), max_length as nat),
{
    let gs = graphemes(input);
    truncate_graphemes(&gs, max_length)
}

/// The most grapheme clusters of a title that an entry's name keeps.
pub const TITLE_MAX_GRAPHEMES: usize = 100;

/// The first eight characters of a date, or all of a shorter one.
pub open spec fn date8(d: Seq<char>) -> Seq<char> {
    if d.len() >= 8 {
        d.take(8)
    } else {
        d
    }
}

/// An entry's name before sanitising:
/// `{date8}_{target}_{board}_{id, four digits at least}_{title}`.
pub open spec fn raw_prefix_spec(
    date: Seq<char>,
    cafe: Seq<char>,
    board: Seq<char>,
    id: usize,
    title: Seq<char>,
) -> Seq<char> {
    date8(date) + seq!['_'] + cafe + seq!['_'] + board + seq!['_'] + zero_pad(decimal(id as nat), 4)
        + seq!['_'] + title
}

/// Builds an entry's name from its parts, `title` being already cut to length.
pub fn raw_post_prefix(date: &str, cafe: &str, board: &str, id: usize, title: &str) -> (r: String)
    ensures
        r@ == raw_prefix_spec(date@, cafe@, board@, id, title@),
{
    let d = chars_of(date);
    let mut out: Vec<char> = if d.len() >= 8 {
        crate::text::sub_chars(&d, 0, 8)
    } else {
        d
    };
    assert(out@ =~= date8(date@));
    out.push('_');
    push_all(&mut out, &chars_of(cafe));
    out.push('_');
    push_all(&mut out, &chars_of(board));
    out.push('_');
    push_padded(id, 4, &mut out);
    out.push('_');
    push_all(&mut out, &chars_of(title));
    assert(out@ =~= raw_prefix_spec(date@, cafe@, board@, id, title@));
    string_of(&out)
}

/// Characters that never stand in a sanitised file name.
pub open spec fn is_unsafe_file_char(c: char) -> bool {
    c == '/' || c == '?' || c == '<' || c == '>' || c == '\\' || c == ':' || c == '*' || c == '|'
        || c == '"' || c <= '\u{1f}' || ('\u{80}' <= c && c <= '\u{9f}')
}

/// The number of bytes of the UTF-8 encoding of `c`.
pub open spec fn char_bytes(c: char) -> nat {
    if (c as u32) < 0x80 {
        1
    } else if (c as u32) < 0x800 {
        2
    } else if (c as u32) < 0x10000 {
        3
    } else {
        4
    }
}

/// The longest leading part of `s` whose UTF-8 encoding fits in `budget` bytes.
pub open spec fn cut_bytes(s: Seq<char>, budget: nat) -> Seq<char>
    decreases s.len(),
{
    if s.len() == 0 || char_bytes(s[0]) > budget {
        Seq::empty()
    } else {
        seq![s[0]] + cut_bytes(s.drop_first(), (budget - char_bytes(s[0])) as nat)
    }
}

/// The longest file name, in bytes, that sanitising keeps.
pub const FILE_NAME_MAX_BYTES: usize = 255;

/// A file name made safe: the unsafe characters removed, a name of dots alone
/// made empty, and the rest cut to `FILE_NAME_MAX_BYTES` bytes.
pub open spec fn sanitized(name: Seq<char>) -> Seq<char> {
    let a = name.filter(|c: char| !is_unsafe_file_char(c));
    let b = if a.len() > 0 && (forall|i: int| 0 <= i < a.len() ==> a[i] == '.') {
        Seq::empty()
    } else {
        a
    };
    cut_bytes(b, FILE_NAME_MAX_BYTES as nat)
}

/// Relies on `sanitize_filename::sanitize_with_options` with `truncate` set and
/// an empty replacement, the options that `sanitize` uses: it removes
/// `/?<>\:*|"` and the control characters U+0000-U+001F and U+0080-U+009F,
/// empties a name of dots alone, and cuts the name to 255 bytes at a character
/// boundary. With `windows` set it also removes reserved device names and
/// trailing dots and spaces, which only removes more.
#[verifier::external_body]
fn sanitize(name: &str, windows: bool) -> (r: String)
    ensures
        forall|i: int| 0 <= i < r@.len() ==> !is_unsafe_file_char(#[trigger] r@[i]),
        r@.len() <= name@.len(),
        !windows ==> r@ == sanitized(name@),
{
    let options = sanitize_filename::Options { windows, truncate: true, replacement: "" };
    sanitize_filename::sanitize_with_options(name, options)
}

/// The name of a post's archive entry: the raw name with the title cut to
/// `TITLE_MAX_GRAPHEMES` grapheme clusters, sanitised for the filesystem;
/// `windows` adds the rules of Windows file names.
pub fn post_prefix(date: &str, cafe: &str, board: &str, id: usize, name: &str, windows: bool) -> (r:
    String)
    ensures
        !windows ==> r@ == sanitized(
            raw_prefix_spec(
                date@,
                cafe@,
                board@,
                id,
                take_graphemes(graphemes_of(name@), TITLE_MAX_GRAPHEMES as nat),
            ),
        ),
        forall|i: int| 0 <= i < r@.len() ==> !is_unsafe_file_char(#[trigger] r@[i]),
        r@.len() <= raw_prefix_spec(
            date@,
            cafe@,
            board@,
            id,
            take_graphemes(graphemes_of(name@), TITLE_MAX_GRAPHEMES as nat),
        ).len(),
{
    let title = truncate_str_to_length(name, TITLE_MAX_GRAPHEMES);
    let raw = raw_post_prefix(date, cafe, board, id, title.as_str());
    sanitize(raw.as_str(), windows)
}

/// The name of the file that holds a post's body text.
pub fn text_file_name(prefix: &str) -> (r: String)
    ensures
        r@ == prefix@ + ".txt"@,
{
    let mut out = chars_of(prefix);
    push_all(&mut out, &chars_of(".txt"));
    string_of(&out)
}

/// The image URLs of an answer; none where it lists none.
pub open spec fn images_of(resp: CafeApiResponse) -> Seq<Seq<char>> {
    match resp.image_list {
        Some(v) => string_views(v@),
        None => Seq::empty(),
    }
}

/// The assets of an answer; none where it lists none.
pub open spec fn files_of(resp: CafeApiResponse) -> Seq<CafeFile> {
    match resp.addfiles {
        Some(a) => a.addfile@,
        None => Seq::empty(),
    }
}

/// The index of the first image whose URL has basename `b`, or -1.
pub open spec fn first_match(images: Seq<Seq<char>>, b: Seq<char>) -> int
    decreases images.len(),
{
    if images.len() == 0 {
        -1
    } else {
        let p = first_match(images.drop_last(), b);
        if p >= 0 {
            p
        } else if basename(images.last()) == b {
            images.len() - 1
        } else {
            -1
        }
    }
}

/// How many of the files match no image.
pub open spec fn attach_count(images: Seq<Seq<char>>, files: Seq<CafeFile>) -> nat
    decreases files.len(),
{
    if files.len() == 0 {
        0
    } else {
        attach_count(images, files.drop_last()) + if first_match(
            images,
            basename(files.last().downurl@),
        ) >= 0 {
            0nat
        } else {
            1nat
        }
    }
}

/// The file name of asset `k`: `{prefix}_img{rank}.{ext}` where its basename
/// matches the image of 1-based position `rank`, else `{prefix}_attach{n}.{ext}`
/// where it is the `n`-th asset that matches no image; numbers of three digits at least.
pub open spec fn asset_name(
    prefix: Seq<char>,
    images: Seq<Seq<char>>,
    files: Seq<CafeFile>,
    k: int,
) -> Seq<char> {
    let f = files[k];
    let r = first_match(images, basename(f.downurl@));
    if r >= 0 {
        prefix + "_img"@ + zero_pad(decimal((r + 1) as nat), 3) + "."@ + f.filetype@
    } else {
        prefix + "_attach"@ + zero_pad(decimal(attach_count(images, files.take(k)) + 1), 3) + "."@
            + f.filetype@
    }
}

/// One download: the asset's URL and the file name it is saved under.
#[derive(Debug, Clone)]
pub struct DownloadTask {
    pub url: String,
    pub file_name: String,
}

fn basename_exec(url: &Vec<char>) -> (r: Vec<char>)
    ensures
        r@ == basename(url@),
{
    let pieces = split_chars(url, '/');
    proof {
        crate::text::lemma_split_len(url@, '/');
    }
    let last = pieces.len() - 1;
    assert(views(pieces@)[last as int] == pieces@[last as int]@);
    crate::text::sub_chars(&pieces[last], 0, pieces[last].len())
}

fn first_match_exec(bases: &Vec<Vec<char>>, b: &Vec<char>, images: Ghost<Seq<Seq<char>>>) -> (r: Option<
    usize,
>)
    requires
        bases.len() == images@.len(),
        forall|i: int| 0 <= i < bases.len() ==> (#[trigger] bases@[i])@ == basename(images@[i]),
    ensures
        match r {
            Some(i) => first_match(images@, b@) == i as int && i < bases.len(),
            None => first_match(images@, b@) == -1,
        },
{
    let mut i: usize = 0;
    while i < bases.len()
        invariant
            i <= bases.len(),
            bases.len() == images@.len(),
            forall|k: int| 0 <= k < bases.len() ==> (#[trigger] bases@[k])@ == basename(images@[k]),
            first_match(images@.take(i as int), b@) == -1,
        decreases bases.len() - i,
    {
        let ghost t = images@.take(i + 1);
        assert(t.drop_last() =~= images@.take(i as int));
        assert(t.last() == images@[i as int]);
        assert(bases@[i as int]@ == basename(images@[i as int]));
        if crate::text::chars_eq(&bases[i], b) {
            proof {
                lemma_first_match_prefix(images@, i as int + 1, b@);
            }
            return Some(i);
        }
        i = i + 1;
    }
    assert(images@.take(i as int) =~= images@);
    None
}

proof fn lemma_first_match_prefix(images: Seq<Seq<char>>, j: int, b: Seq<char>)
    requires
        0 <= j <= images.len(),
        first_match(images.take(j), b) >= 0,
    ensures
        first_match(images, b) == first_match(images.take(j), b),
    decreases images.len() - j,
{
    if j < images.len() {
        let t = images.take(j + 1);
        assert(t.drop_last() =~= images.take(j));
        lemma_first_match_prefix(images, j + 1, b);
    } else {
        assert(images.take(j) =~= images);
    }
}

/// Plans the downloads of a post's assets, each under its final file name,
/// before any of them starts.
pub fn plan_downloads(prefix: &str, resp: &CafeApiResponse) -> (r: Vec<DownloadTask>)
    ensures
        r@.len() == files_of(*resp).len(),
        forall|k: int|
            0 <= k < r@.len() ==> (#[trigger] r@[k]).url@ == files_of(*resp)[k].downurl@
                && r@[k].file_name@ == asset_name(prefix@, images_of(*resp), files_of(*resp), k),
{
    let ghost images = images_of(*resp);
    let ghost files = files_of(*resp);
    let empty_images: Vec<String> = Vec::new();
    let image_list = match &resp.image_list {
        Some(v) => v,
        None => &empty_images,
    };
    assert(string_views(image_list@) =~= images);
    let empty_files = CafeAddFiles::new();
    let addfiles = match &resp.addfiles {
        Some(a) => a,
        None => &empty_files,
    };
    assert(addfiles.addfile@ =~= files);
    let mut bases: Vec<Vec<char>> = Vec::new();
    let mut i: usize = 0;
    while i < image_list.len()
        invariant
            i <= image_list.len(),
            string_views(image_list@) == images,
            bases.len() == i,
            forall|k: int| 0 <= k < i ==> (#[trigger] bases@[k])@ == basename(images[k]),
        decreases image_list.len() - i,
    {
        let u = chars_of(image_list[i].as_str());
        bases.push(basename_exec(&u));
        i = i + 1;
    }
    let pre = chars_of(prefix);
    let img = chars_of("_img");
    let att = chars_of("_attach");
    let dot = chars_of(".");
    let mut tasks: Vec<DownloadTask> = Vec::new();
    let mut attach: usize = 0;
    let mut k: usize = 0;
    let files_v = &addfiles.addfile;
    while k < files_v.len()
        invariant
            k <= files_v.len(),
            files_v@ == files,
            bases.len() == images.len(),
            forall|j: int| 0 <= j < bases.len() ==> (#[trigger] bases@[j])@ == basename(images[j]),
            pre@ == prefix@,
            img@ == "_img"@,
            att@ == "_attach"@,
            dot@ == "."@,
            attach as nat == attach_count(images, files.take(k as int)),
            attach <= k,
            tasks@.len() == k,
            forall|j: int|
                0 <= j < k ==> (#[trigger] tasks@[j]).url@ == files[j].downurl@
                    && tasks@[j].file_name@ == asset_name(prefix@, images, files, j),
        decreases files_v.len() - k,
    {
        let f = &files_v[k];
        let u = chars_of(f.downurl.as_str());
        let b = basename_exec(&u);
        let ext = chars_of(f.filetype.as_str());
        let mut name = copy_chars(&pre);
        let ghost t = files.take(k + 1);
        assert(t.drop_last() =~= files.take(k as int));
        assert(t.last() == f);
        match first_match_exec(&bases, &b, Ghost(images)) {
            Some(r) => {
                push_all(&mut name, &img);
                push_padded(r + 1, 3, &mut name);
            },
            None => {
                push_all(&mut name, &att);
                push_padded(attach + 1, 3, &mut name);
                attach = attach + 1;
            },
        }
        push_all(&mut name, &dot);
        push_all(&mut name, &ext);
        assert(name@ =~= asset_name(prefix@, images, files, k as int));
        let task = DownloadTask { url: f.downurl.clone(), file_name: string_of(&name) };
        tasks.push(task);
        k = k + 1;
    }
    tasks
}

fn copy_chars(v: &Vec<char>) -> (r: Vec<char>)
    ensures
        r@ == v@,
{
    let r = crate::text::sub_chars(v, 0, v.len());
    assert(r@ =~= v@);
    r
}

} // verus!
