//! What the terminal shows: the layout of a frame and its rows.
use vstd::prelude::*;
use vstd::string::*;
use vstd::utf8::*;

use crate::display::{
    fit, fit_styled, fitted, fitted_styled, highlight_term, mark_term, marked_term, push_spaces,
    sanitize_terminal_text, sanitized, spaces, split_around, term_split,
};
use crate::filters::{
    binary_extension, document_extension, is_binary_extension, is_document_extension,
};
use crate::index::{EntryModel, FileEntry};
use crate::query::{content_query, is_content_query};
use crate::size::{format_size, size_text};
use crate::text::{
    chars_of, copy_of, decimal, join, joined, lines, lines_of, opt_view, push_decimal, str_eq,
    str_views, string_of, views,
};

verus! {

/// How the rows of a terminal are divided.
pub struct Layout {
    /// The rows for results.
    pub result_rows: usize,
    /// The rows for the preview.
    pub preview_rows: usize,
}

/// The rows for results and preview, where a terminal has `rows` rows.
pub open spec fn free_rows(rows: int) -> int {
    if rows > 6 {
        rows - 6
    } else {
        0
    }
}

/// The rows for results: all, or 60 in 100 and no less than 3 where there are results to preview.
pub open spec fn result_rows(rows: int, count: int) -> int {
    if count > 0 {
        if free_rows(rows) * 60 / 100 > 3 {
            free_rows(rows) * 60 / 100
        } else {
            3
        }
    } else {
        free_rows(rows)
    }
}

/// The rows for the preview: what the results and the line between leave.
pub open spec fn preview_rows(rows: int, count: int) -> int {
    if count > 0 && free_rows(rows) > result_rows(rows, count) + 1 {
        free_rows(rows) - (result_rows(rows, count) + 1)
    } else {
        0
    }
}

/// Divides the rows of a terminal.
pub fn layout(rows: u16, count: usize) -> (r: Layout)
    ensures
        r.result_rows == result_rows(rows as int, count as int),
        r.preview_rows == preview_rows(rows as int, count as int),
{
    let total: usize = if rows > 6 {
        (rows - 6) as usize
    } else {
        0
    };
    if count == 0 {
        return Layout { result_rows: total, preview_rows: 0 };
    }
    let share: usize = total * 60 / 100;
    let results: usize = if share > 3 {
        share
    } else {
        3
    };
    let preview: usize = if total > results + 1 {
        total - (results + 1)
    } else {
        0
    };
    Layout { result_rows: results, preview_rows: preview }
}

/// A layout takes no more rows than the terminal has between its header and its footer, as soon
/// as there is room for three results.
pub proof fn law_layout_fits(rows: int, count: int)
    requires
        rows >= 9,
        count >= 0,
    ensures
        result_rows(rows, count) <= free_rows(rows),
        preview_rows(rows, count) > 0 ==> result_rows(rows, count) + 1 + preview_rows(rows, count)
            == free_rows(rows),
{
}

/// The note on which results are on the screen, where they are not all.
pub open spec fn scroll_note(scroll: int, rows: int, count: int) -> Seq<char> {
    if count > rows {
        " ["@ + decimal((scroll + 1) as nat) + "-"@ + decimal(
            (if scroll + rows < count {
                scroll + rows
            } else {
                count
            }) as nat,
        ) + "/"@ + decimal(count as nat) + "]"@
    } else {
        Seq::empty()
    }
}

/// What the header is made of.
pub struct HeaderInfo<'a> {
    /// How many files are indexed.
    pub files: usize,
    /// The text of the search line.
    pub text: &'a str,
    /// How many results there are.
    pub count: usize,
    /// Whether the text has been searched for by contents.
    pub searched: bool,
    /// The first result on the screen.
    pub scroll: usize,
    /// How many results fit on the screen.
    pub rows: usize,
    /// How long the search took, in milliseconds.
    pub millis: &'a str,
}

/// The text of the header.
pub open spec fn header_text(h: HeaderInfo<'_>) -> Seq<char> {
    let start = "  TurboFind | "@ + decimal(h.files as nat);
    if h.text@.len() == 0 {
        start + " files indexed"@
    } else if content_query(h.text@) && h.count == 0 && !h.searched {
        start + " files | Press Enter to search"@
    } else {
        start + " files | "@ + decimal(h.count as nat) + " results in "@ + h.millis@ + "ms"@
            + scroll_note(h.scroll as int, h.rows as int, h.count as int)
    }
}

/// The header: how many files there are, and what was found.
pub fn header(h: &HeaderInfo<'_>) -> (r: String)
    requires
        h.scroll < usize::MAX,
        h.scroll + h.rows <= usize::MAX,
    ensures
        r@ == header_text(*h),
{
    let mut out: String = copy_of("  TurboFind | ");
    push_decimal(&mut out, h.files as u64);
    if h.text.is_empty() {
        out.append(" files indexed");
        return out;
    }
    if is_content_query(h.text) && h.count == 0 && !h.searched {
        out.append(" files | Press Enter to search");
        return out;
    }
    out.append(" files | ");
    push_decimal(&mut out, h.count as u64);
    out.append(" results in ");
    out.append(h.millis);
    out.append("ms");
    let ghost before = out@;
    if h.count > h.rows {
        let last: usize = if h.scroll + h.rows < h.count {
            h.scroll + h.rows
        } else {
            h.count
        };
        out.append(" [");
        push_decimal(&mut out, (h.scroll + 1) as u64);
        out.append("-");
        push_decimal(&mut out, last as u64);
        out.append("/");
        push_decimal(&mut out, h.count as u64);
        out.append("]");
    }
    assert(out@ =~= before + scroll_note(h.scroll as int, h.rows as int, h.count as int));
    out
}

/// What the search line shows while it is empty.
pub open spec fn search_hint() -> Seq<char> {
    "  > Filters: ext:rs dir: in:path regex: grep:term content:term"@
}

/// Where the part of a line of `len` characters begins that is shown in `room` characters, so
/// that the cursor is in it, in the middle where that can be.
pub open spec fn window_start(cursor: int, len: int, room: int) -> int {
    if len <= room || cursor <= room / 2 {
        0
    } else if cursor - room / 2 < len - room {
        cursor - room / 2
    } else {
        len - room
    }
}

/// How many characters the search line has room for.
pub open spec fn line_room(w: int) -> int {
    if w > 4 {
        w - 4
    } else {
        0
    }
}

/// The search line: the text with a bar at the cursor, as much of it as there is room for.
pub open spec fn search_line_text(text: Seq<char>, cursor: int, w: int) -> Seq<char> {
    if text.len() == 0 {
        search_hint()
    } else {
        let full = text.take(cursor) + seq!['|'] + text.skip(cursor);
        let room = line_room(w);
        let start = window_start(cursor, full.len() as int, room);
        "  > "@ + full.subrange(
            start,
            if start + room < full.len() {
                start + room
            } else {
                full.len() as int
            },
        )
    }
}

/// The search line, scrolled so that the cursor stays visible.
pub fn search_line(text: &str, cursor: usize, w: usize) -> (r: String)
    requires
        cursor <= text@.len(),
        text@.len() < usize::MAX,
    ensures
        r@ == search_line_text(text@, cursor as int, w as int),
{
    if text.is_empty() {
        return copy_of("  > Filters: ext:rs dir: in:path regex: grep:term content:term");
    }
    let chars: Vec<char> = chars_of(text);
    let mut full: Vec<char> = Vec::new();
    let mut i: usize = 0;
    while i < cursor
        invariant
            i <= cursor <= chars@.len(),
            full@ == chars@.take(i as int),
        decreases cursor - i,
    {
        full.push(chars[i]);
        i += 1;
        assert(full@ =~= chars@.take(i as int));
    }
    full.push('|');
    assert(full@ =~= chars@.take(cursor as int) + seq!['|'] + chars@.subrange(
        cursor as int,
        cursor as int,
    ));
    while i < chars.len()
        invariant
            cursor <= i <= chars@.len(),
            full@ == chars@.take(cursor as int) + seq!['|'] + chars@.subrange(
                cursor as int,
                i as int,
            ),
        decreases chars@.len() - i,
    {
        full.push(chars[i]);
        i += 1;
        assert(full@ =~= chars@.take(cursor as int) + seq!['|'] + chars@.subrange(
            cursor as int,
            i as int,
        ));
    }
    assert(chars@.subrange(cursor as int, i as int) =~= chars@.skip(cursor as int));
    let room: usize = if w > 4 {
        w - 4
    } else {
        0
    };
    let len: usize = full.len();
    let start: usize = if len <= room || cursor <= room / 2 {
        0
    } else if cursor - room / 2 < len - room {
        cursor - room / 2
    } else {
        len - room
    };
    let end: usize = if room < len - start {
        start + room
    } else {
        len
    };
    let mut out: String = copy_of("  > ");
    out.append(string_of(&full, start, end).as_str());
    out
}

/// However long the text is, the bar at the cursor is in the part of the line that is shown.
pub proof fn law_cursor_is_visible(len: int, cursor: int, room: int)
    requires
        0 <= cursor <= len,
        room > 0,
    ensures
        ({
            let start = window_start(cursor, len + 1, room);
            0 <= start <= cursor < start + room
        }),
{
}

/// The mark of an entry: what kind of file it is.
pub open spec fn tag_of(is_dir: bool, ext: Seq<char>) -> Seq<char> {
    if is_dir {
        "DIR"@
    } else if ext == "rs"@ || ext == "py"@ || ext == "js"@ || ext == "ts"@ || ext == "c"@ || ext
        == "cpp"@ || ext == "java"@ || ext == "go"@ {
        "SRC"@
    } else if ext == "jpg"@ || ext == "png"@ || ext == "gif"@ || ext == "bmp"@ || ext == "svg"@
        || ext == "webp"@ {
        "IMG"@
    } else if ext == "mp3"@ || ext == "wav"@ || ext == "flac"@ || ext == "ogg"@ || ext == "m4a"@ {
        "AUD"@
    } else if ext == "mp4"@ || ext == "mkv"@ || ext == "avi"@ || ext == "mov"@ || ext == "webm"@ {
        "VID"@
    } else if ext == "zip"@ || ext == "rar"@ || ext == "7z"@ || ext == "tar"@ || ext == "gz"@ {
        "ZIP"@
    } else if ext == "exe"@ || ext == "msi"@ {
        "EXE"@
    } else if ext == "pdf"@ {
        "PDF"@
    } else if ext == "doc"@ || ext == "docx"@ {
        "DOC"@
    } else if ext == "xls"@ || ext == "xlsx"@ {
        "XLS"@
    } else {
        "   "@
    }
}

/// The mark of an entry.
pub fn tag(is_dir: bool, ext: &str) -> (r: &'static str)
    ensures
        r@ == tag_of(is_dir, ext@),
{
    if is_dir {
        "DIR"
    } else if str_eq(ext, "rs") || str_eq(ext, "py") || str_eq(ext, "js") || str_eq(ext, "ts")
        || str_eq(ext, "c") || str_eq(ext, "cpp") || str_eq(ext, "java") || str_eq(ext, "go") {
        "SRC"
    } else if str_eq(ext, "jpg") || str_eq(ext, "png") || str_eq(ext, "gif") || str_eq(ext, "bmp")
        || str_eq(ext, "svg") || str_eq(ext, "webp") {
        "IMG"
    } else if str_eq(ext, "mp3") || str_eq(ext, "wav") || str_eq(ext, "flac") || str_eq(ext, "ogg")
        || str_eq(ext, "m4a") {
        "AUD"
    } else if str_eq(ext, "mp4") || str_eq(ext, "mkv") || str_eq(ext, "avi") || str_eq(ext, "mov")
        || str_eq(ext, "webm") {
        "VID"
    } else if str_eq(ext, "zip") || str_eq(ext, "rar") || str_eq(ext, "7z") || str_eq(ext, "tar")
        || str_eq(ext, "gz") {
        "ZIP"
    } else if str_eq(ext, "exe") || str_eq(ext, "msi") {
        "EXE"
    } else if str_eq(ext, "pdf") {
        "PDF"
    } else if str_eq(ext, "doc") || str_eq(ext, "docx") {
        "DOC"
    } else if str_eq(ext, "xls") || str_eq(ext, "xlsx") {
        "XLS"
    } else {
        "   "
    }
}

/// The last two components of a folder, with a backslash between them.
pub open spec fn short_path_of(components: Seq<Seq<char>>) -> Seq<char> {
    joined(
        if components.len() > 2 {
            components.skip(components.len() - 2)
        } else {
            components
        },
        "\\"@,
    )
}

/// Shortens a folder, given by its components, to the last two of them.
pub fn short_path(components: &Vec<String>) -> (r: String)
    ensures
        r@ == short_path_of(views(components@)),
{
    let n: usize = components.len();
    let from: usize = if n > 2 {
        n - 2
    } else {
        0
    };
    let mut last: Vec<String> = Vec::new();
    let mut i: usize = from;
    while i < n
        invariant
            from <= i <= n == components@.len(),
            views(last@) == views(components@).subrange(from as int, i as int),
        decreases n - i,
    {
        let ghost before = views(last@);
        last.push(copy_of(components[i].as_str()));
        i += 1;
        assert(views(last@) =~= before.push(components@[i - 1]@));
        assert(views(last@) =~= views(components@).subrange(from as int, i as int));
    }
    assert(views(last@) =~= (if n > 2 {
        views(components@).skip(n - 2)
    } else {
        views(components@)
    }));
    join(&last, "\\")
}

/// One result as it is shown.
pub struct ResultRow<'a> {
    pub entry: &'a FileEntry,
    /// The number of the line that matches, and 0 where the name was found.
    pub line_num: usize,
    /// The line that matches.
    pub line_text: &'a str,
    /// The folder of the file, shortened.
    pub folder: String,
}

/// What a row says.
pub struct RowModel {
    pub entry: EntryModel,
    pub line_num: usize,
    pub line_text: Seq<char>,
    pub folder: Seq<char>,
}

impl<'a> View for ResultRow<'a> {
    type V = RowModel;

    open spec fn view(&self) -> RowModel {
        RowModel {
            entry: self.entry@,
            line_num: self.line_num,
            line_text: self.line_text@,
            folder: self.folder@,
        }
    }
}

/// The size of an entry; directories have none.
pub open spec fn entry_size(e: EntryModel) -> Seq<char> {
    if e.is_dir {
        Seq::empty()
    } else {
        size_text(e.size as nat)
    }
}

/// The selected row: plain text in reverse video.
pub open spec fn selected_row(row: RowModel, w: int) -> Seq<char> {
    let start = " > ["@ + tag_of(row.entry.is_dir, row.entry.extension) + "] "@ + row.entry.name
        + "  "@ + row.folder + "  "@;
    let line = if row.line_num > 0 {
        start + "L"@ + decimal(row.line_num as nat) + ":"@ + row.line_text
    } else {
        start + entry_size(row.entry)
    };
    "\x1b[7m"@ + fitted(line, w) + "\x1b[0m"@
}

/// A name in yellow, with the searched text in it in bold red.
pub open spec fn styled_name(e: EntryModel, term: Seq<char>) -> Seq<char> {
    let plain = "\x1b[33m"@ + e.name + "\x1b[0m"@;
    if term.len() == 0 {
        plain
    } else {
        match term_split(e.name, term) {
            Some(s) => "\x1b[33m"@ + s.before + "\x1b[1;31m"@ + s.matched + "\x1b[0;33m"@ + s.after
                + "\x1b[0m"@,
            None => plain,
        }
    }
}

/// A row that is not selected, in color.
pub open spec fn plain_row(row: RowModel, term: Seq<char>, w: int) -> Seq<char> {
    let start = "   \x1b[90m["@ + tag_of(row.entry.is_dir, row.entry.extension) + "]\x1b[0m "@;
    let line = if row.line_num > 0 {
        start + "\x1b[33m"@ + row.entry.name + "\x1b[0m  \x1b[90m"@ + row.folder
            + "\x1b[0m  \x1b[36mL"@ + decimal(row.line_num as nat) + "\x1b[0m:"@ + marked_term(
            row.line_text,
            term,
            "\x1b[1;31m"@,
            "\x1b[0m"@,
        )
    } else {
        start + styled_name(row.entry, term) + "  \x1b[90m"@ + row.folder + "\x1b[0m  "@
            + entry_size(row.entry)
    };
    fitted_styled(line, w)
}

/// A row of results.
pub open spec fn row_text(row: RowModel, selected: bool, term: Seq<char>, w: int) -> Seq<char> {
    if selected {
        selected_row(row, w)
    } else {
        plain_row(row, term, w)
    }
}

fn size_of_entry(e: &FileEntry) -> (r: String)
    ensures
        r@ == entry_size(e@),
{
    if e.is_dir {
        String::new()
    } else {
        format_size(e.size)
    }
}

fn style_name(e: &FileEntry, term: &str) -> (r: String)
    ensures
        r@ == styled_name(e@, term@),
{
    let mut out: String = copy_of("\x1b[33m");
    if !term.is_empty() {
        if let Some(p) = split_around(e.name.as_str(), term) {
            out.append(p.before.as_str());
            out.append("\x1b[1;31m");
            out.append(p.matched.as_str());
            out.append("\x1b[0;33m");
            out.append(p.after.as_str());
            out.append("\x1b[0m");
            return out;
        }
    }
    out.append(e.name.as_str());
    out.append("\x1b[0m");
    out
}

/// Renders one result.
pub fn render_row(row: &ResultRow<'_>, selected: bool, term: &str, w: usize) -> (r: String)
    ensures
        r@ == row_text(row@, selected, term@, w as int),
{
    let e: &FileEntry = row.entry;
    let mark: &str = tag(e.is_dir, e.extension.as_str());
    if selected {
        let mut line: String = copy_of(" > [");
        line.append(mark);
        line.append("] ");
        line.append(e.name.as_str());
        line.append("  ");
        line.append(row.folder.as_str());
        line.append("  ");
        if row.line_num > 0 {
            line.append("L");
            push_decimal(&mut line, row.line_num as u64);
            line.append(":");
            line.append(row.line_text);
        } else {
            line.append(size_of_entry(e).as_str());
        }
        let mut out: String = copy_of("\x1b[7m");
        out.append(fit(line.as_str(), w).as_str());
        out.append("\x1b[0m");
        return out;
    }
    let mut line: String = copy_of("   \x1b[90m[");
    line.append(mark);
    line.append("]\x1b[0m ");
    if row.line_num > 0 {
        line.append("\x1b[33m");
        line.append(e.name.as_str());
        line.append("\x1b[0m  \x1b[90m");
        line.append(row.folder.as_str());
        line.append("\x1b[0m  \x1b[36mL");
        push_decimal(&mut line, row.line_num as u64);
        line.append("\x1b[0m:");
        line.append(highlight_term(row.line_text, term).as_str());
    } else {
        line.append(style_name(e, term).as_str());
        line.append("  \x1b[90m");
        line.append(row.folder.as_str());
        line.append("\x1b[0m  ");
        line.append(size_of_entry(e).as_str());
    }
    fit_styled(line.as_str(), w)
}

/// `n` horizontal bars.
pub open spec fn bars(n: int) -> Seq<char> {
    Seq::new(
        if n >= 0 {
            n as nat
        } else {
            0
        },
        |i: int| '\u{2500}',
    )
}

fn push_bars(out: &mut String, n: usize)
    ensures
        final(out)@ == old(out)@ + bars(n as int),
{
    let mut i: usize = 0;
    let ghost before = out@;
    assert(before + bars(0) =~= before);
    while i < n
        invariant
            i <= n,
            out@ == before + bars(i as int),
        decreases n - i,
    {
        out.push('\u{2500}');
        i += 1;
        assert(out@ =~= before + bars(i as int));
    }
}

/// The bars behind a name of `len` bytes in the line above the preview.
pub open spec fn bars_behind(len: int, w: int) -> int {
    if w > len + 3 {
        w - (len + 3)
    } else {
        0
    }
}

/// The line above the preview, with the name of the file in it.
pub open spec fn preview_title(name: Seq<char>, w: int) -> Seq<char> {
    fitted_styled(
        "\u{2500}\u{2500} \x1b[1m"@ + name + "\x1b[0m "@ + bars(
            bars_behind(encode_utf8(name).len() as int, w),
        ),
        w,
    )
}

/// Renders the line above the preview.
pub fn render_title(name: &str, w: usize) -> (r: String)
    ensures
        r@ == preview_title(name@, w as int),
{
    let len: usize = name.as_bytes().len();
    let behind: usize = if w > len && w - len > 3 {
        w - len - 3
    } else {
        0
    };
    let mut line: String = copy_of("\u{2500}\u{2500} \x1b[1m");
    line.append(name);
    line.append("\x1b[0m ");
    push_bars(&mut line, behind);
    fit_styled(line.as_str(), w)
}

/// A number, filled with spaces on the left to four characters.
pub open spec fn in_four(n: nat) -> Seq<char> {
    spaces(4 - decimal(n).len()) + decimal(n)
}

fn push_in_four(out: &mut String, n: usize)
    ensures
        final(out)@ == old(out)@ + in_four(n as nat),
{
    let mut digits: String = String::new();
    push_decimal(&mut digits, n as u64);
    assert(digits@ =~= decimal(n as nat));
    let len: usize = chars_of(digits.as_str()).len();
    let ghost before = out@;
    if len < 4 {
        push_spaces(out, 4 - len);
    } else {
        assert(before + spaces(4 - len) =~= before);
    }
    out.append(digits.as_str());
    assert(out@ =~= before + in_four(n as nat));
}

/// Whether line number `n` is within three lines of the line that matches, if there is one.
pub open spec fn near(n: int, highlight: int) -> bool {
    highlight > 0 && -3 <= n - highlight <= 3
}

/// A line of the preview: number `n` of the file, where line `highlight` matches.
pub open spec fn preview_line(
    content: Seq<char>,
    n: int,
    highlight: int,
    term: Seq<char>,
    w: int,
) -> Seq<char> {
    let number = in_four(n as nat);
    fitted_styled(
        if highlight > 0 && n == highlight {
            "\x1b[1;33m"@ + number + "\x1b[0m "@ + marked_term(
                content,
                term,
                "\x1b[1;4;93m"@,
                "\x1b[0m"@,
            )
        } else if near(n, highlight) {
            "\x1b[36m"@ + number + "\x1b[0m "@ + content
        } else {
            "\x1b[90m"@ + number + "\x1b[0m \x1b[90m"@ + content + "\x1b[0m"@
        },
        w,
    )
}

/// Renders a line of the preview.
pub fn render_preview_line(content: &str, n: usize, highlight: usize, term: &str, w: usize) -> (r:
    String)
    ensures
        r@ == preview_line(content@, n as int, highlight as int, term@, w as int),
{
    let mut line: String = String::new();
    if highlight > 0 && n == highlight {
        line.append("\x1b[1;33m");
        push_in_four(&mut line, n);
        line.append("\x1b[0m ");
        line.append(mark_term(content, term, "\x1b[1;4;93m", "\x1b[0m").as_str());
        assert(line@ =~= "\x1b[1;33m"@ + in_four(n as nat) + "\x1b[0m "@ + marked_term(
            content@,
            term@,
            "\x1b[1;4;93m"@,
            "\x1b[0m"@,
        ));
    } else if highlight > 0 && (if n > highlight {
        n - highlight <= 3
    } else {
        highlight - n <= 3
    }) {
        line.append("\x1b[36m");
        push_in_four(&mut line, n);
        line.append("\x1b[0m ");
        line.append(content);
        assert(line@ =~= "\x1b[36m"@ + in_four(n as nat) + "\x1b[0m "@ + content@);
    } else {
        line.append("\x1b[90m");
        push_in_four(&mut line, n);
        line.append("\x1b[0m \x1b[90m");
        line.append(content);
        line.append("\x1b[0m");
        assert(line@ =~= "\x1b[90m"@ + in_four(n as nat) + "\x1b[0m \x1b[90m"@ + content@
            + "\x1b[0m"@);
    }
    fit_styled(line.as_str(), w)
}

/// The first line of the file in the preview, from 0, so that the line that matches is in the
/// middle where that can be.
pub open spec fn preview_start(highlight: int, rows: int) -> int {
    if highlight > 0 && highlight - 1 > rows / 2 {
        highlight - 1 - rows / 2
    } else {
        0
    }
}

/// The line that matches is in the preview.
pub proof fn law_match_is_in_preview(highlight: int, rows: int)
    requires
        highlight > 0,
        rows > 0,
    ensures
        preview_start(highlight, rows) <= highlight - 1 < preview_start(highlight, rows) + rows,
{
}

/// What the preview shows.
pub struct Preview<'a> {
    /// The name of the file.
    pub name: &'a str,
    /// The lines of the file.
    pub lines: &'a Vec<String>,
    /// The number of the line that matches, and 0 where the name was found.
    pub highlight: usize,
}

/// What is shown of a file.
pub enum PreviewKind {
    /// Nothing is selected.
    Nothing,
    Directory,
    /// The text that can be extracted.
    Document,
    /// The file as it is.
    Text,
    Binary,
}

/// What is shown of the selected file.
pub open spec fn preview_kind_of(path: Seq<char>, ext: Seq<char>, is_dir: bool) -> PreviewKind {
    if is_dir {
        PreviewKind::Directory
    } else if path.len() == 0 {
        PreviewKind::Nothing
    } else if document_extension(ext) {
        PreviewKind::Document
    } else if !binary_extension(ext) {
        PreviewKind::Text
    } else {
        PreviewKind::Binary
    }
}

/// What is shown of the selected file; `path` is empty where nothing is selected.
pub fn preview_kind(path: &str, ext: &str, is_dir: bool) -> (r: PreviewKind)
    ensures
        r == preview_kind_of(path@, ext@, is_dir),
{
    if is_dir {
        PreviewKind::Directory
    } else if path.is_empty() {
        PreviewKind::Nothing
    } else if is_document_extension(ext) {
        PreviewKind::Document
    } else if !is_binary_extension(ext) {
        PreviewKind::Text
    } else {
        PreviewKind::Binary
    }
}

/// Texts of more bytes than this are not shown.
pub const MAX_PREVIEW_BYTES: usize = 1048576;

/// The lines of the preview, where `text` is what was read of a file that is shown.
pub open spec fn preview_lines_of(kind: PreviewKind, text: Option<Seq<char>>) -> Seq<Seq<char>> {
    match kind {
        PreviewKind::Nothing => Seq::empty(),
        PreviewKind::Directory => seq!["(directory)"@],
        PreviewKind::Binary => seq!["(binary file)"@],
        _ => match text {
            Some(t) => if encode_utf8(t).len() <= MAX_PREVIEW_BYTES {
                lines_of(t).map_values(|line: Seq<char>| sanitized(line))
            } else {
                seq![unread_note(kind)]
            },
            None => seq![unread_note(kind)],
        },
    }
}

/// The note where a file cannot be shown.
pub open spec fn unread_note(kind: PreviewKind) -> Seq<char> {
    if kind is Document {
        "(cannot extract text)"@
    } else {
        "(cannot read file)"@
    }
}

fn one_line(s: &str) -> (r: Vec<String>)
    ensures
        views(r@) == seq![s@],
{
    let mut out: Vec<String> = Vec::new();
    out.push(copy_of(s));
    assert(views(out@) =~= seq![s@]);
    out
}

/// The lines of the preview, where `text` is what was read of a file that is shown.
pub fn preview_lines(kind: &PreviewKind, text: Option<String>) -> (r: Vec<String>)
    ensures
        views(r@) == preview_lines_of(*kind, opt_view(text)),
{
    let note: &str = match kind {
        PreviewKind::Nothing => {
            let none: Vec<String> = Vec::new();
            assert(views(none@) =~= Seq::<Seq<char>>::empty());
            return none;
        },
        PreviewKind::Directory => {
            return one_line("(directory)");
        },
        PreviewKind::Binary => {
            return one_line("(binary file)");
        },
        PreviewKind::Document => "(cannot extract text)",
        PreviewKind::Text => "(cannot read file)",
    };
    match text {
        Some(t) => {
            if t.as_str().as_bytes().len() > MAX_PREVIEW_BYTES {
                return one_line(note);
            }
            let all: Vec<String> = lines(t.as_str());
            let ghost texts = views(all@);
            let ghost safe = |line: Seq<char>| sanitized(line);
            let mut out: Vec<String> = Vec::new();
            let mut i: usize = 0;
            assert(views(out@) =~= texts.take(0).map_values(safe));
            while i < all.len()
                invariant
                    i <= all@.len(),
                    texts == views(all@),
                    safe == (|line: Seq<char>| sanitized(line)),
                    views(out@) == texts.take(i as int).map_values(safe),
                decreases all@.len() - i,
            {
                let ghost before = views(out@);
                out.push(sanitize_terminal_text(all[i].as_str()));
                i += 1;
                assert(views(out@) =~= before.push(sanitized(texts[i - 1])));
                assert(texts.take(i as int) =~= texts.take(i - 1).push(texts[i - 1]));
                assert(texts.take(i as int).map_values(safe) =~= before.push(
                    sanitized(texts[i - 1]),
                ));
            }
            assert(texts.take(i as int) =~= texts);
            out
        },
        None => one_line(note),
    }
}

/// What a frame is made of.
pub struct Frame<'a> {
    /// The width of the terminal.
    pub width: usize,
    /// The header.
    pub header: String,
    /// The search line.
    pub search_line: String,
    /// The results on the screen.
    pub rows: Vec<ResultRow<'a>>,
    /// Which of them is selected, if any.
    pub selected: Option<usize>,
    /// The searched text.
    pub term: String,
    /// How the rows of the terminal are divided.
    pub layout: Layout,
    /// The preview, where results are shown.
    pub preview: Option<Preview<'a>>,
}

/// What the rows of a frame say.
pub open spec fn row_views(rows: Seq<ResultRow<'_>>) -> Seq<RowModel> {
    rows.map_values(|r: ResultRow<'_>| r@)
}

/// The first `n` rows of results; rows without a result are blank.
pub open spec fn rows_text(
    rows: Seq<RowModel>,
    selected: Option<usize>,
    term: Seq<char>,
    w: int,
    n: int,
) -> Seq<char>
    decreases n,
{
    if n <= 0 {
        Seq::empty()
    } else {
        rows_text(rows, selected, term, w, n - 1) + if n - 1 < rows.len() {
            row_text(rows[n - 1], selected == Some((n - 1) as usize), term, w)
        } else {
            spaces(w)
        }
    }
}

/// The first `n` lines of a preview that begins with line `start` of the file; lines behind the end
/// of the file are blank.
pub open spec fn preview_text(
    lines: Seq<Seq<char>>,
    start: int,
    highlight: int,
    term: Seq<char>,
    w: int,
    n: int,
) -> Seq<char>
    decreases n,
{
    if n <= 0 {
        Seq::empty()
    } else {
        let at = start + n - 1;
        preview_text(lines, start, highlight, term, w, n - 1) + if at < lines.len() {
            preview_line(lines[at], at + 1, highlight, term, w)
        } else {
            spaces(w)
        }
    }
}

/// The preview with the line above it, where there is room for any.
pub open spec fn preview_pane(
    name: Seq<char>,
    lines: Seq<Seq<char>>,
    highlight: int,
    term: Seq<char>,
    w: int,
    rows: int,
) -> Seq<char> {
    if rows > 0 {
        preview_title(name, w) + preview_text(
            lines,
            preview_start(highlight, rows),
            highlight,
            term,
            w,
            rows,
        )
    } else {
        Seq::empty()
    }
}

/// A whole frame: header, blank line, search line, a line of bars, the results, and the preview.
pub open spec fn frame_text(f: Frame<'_>) -> Seq<char> {
    let w = f.width as int;
    fitted(f.header@, w) + spaces(w) + fitted(f.search_line@, w) + bars(w) + rows_text(
        row_views(f.rows@),
        f.selected,
        f.term@,
        w,
        f.layout.result_rows as int,
    ) + match f.preview {
        Some(p) => preview_pane(
            p.name@,
            views(p.lines@),
            p.highlight as int,
            f.term@,
            w,
            f.layout.preview_rows as int,
        ),
        None => Seq::empty(),
    }
}

fn push_rows(out: &mut String, f: &Frame<'_>)
    ensures
        final(out)@ == old(out)@ + rows_text(
            row_views(f.rows@),
            f.selected,
            f.term@,
            f.width as int,
            f.layout.result_rows as int,
        ),
{
    let ghost rows = row_views(f.rows@);
    let ghost before = out@;
    let w: usize = f.width;
    let mut i: usize = 0;
    assert(before + rows_text(rows, f.selected, f.term@, w as int, 0) =~= before);
    while i < f.layout.result_rows
        invariant
            i <= f.layout.result_rows,
            rows == row_views(f.rows@),
            w == f.width,
            out@ == before + rows_text(rows, f.selected, f.term@, w as int, i as int),
        decreases f.layout.result_rows - i,
    {
        let ghost was = out@;
        let ghost had = rows_text(rows, f.selected, f.term@, w as int, i as int);
        if i < f.rows.len() {
            let selected: bool = match f.selected {
                Some(s) => s == i,
                None => false,
            };
            assert(rows[i as int] == f.rows@[i as int]@);
            let row: String = render_row(&f.rows[i], selected, f.term.as_str(), w);
            out.append(row.as_str());
            assert(out@ =~= before + (had + row@));
        } else {
            push_spaces(out, w);
            assert(out@ =~= before + (had + spaces(w as int)));
        }
        i += 1;
    }
}

fn push_preview(out: &mut String, p: &Preview<'_>, term: &str, w: usize, rows: usize)
    requires
        p.highlight + rows <= usize::MAX,
    ensures
        final(out)@ == old(out)@ + preview_pane(
            p.name@,
            views(p.lines@),
            p.highlight as int,
            term@,
            w as int,
            rows as int,
        ),
{
    let ghost before = out@;
    let ghost lines = views(p.lines@);
    let ghost h = p.highlight as int;
    if rows == 0 {
        assert(before + Seq::<char>::empty() =~= before);
        return;
    }
    let start: usize = if p.highlight > 0 && p.highlight - 1 > rows / 2 {
        p.highlight - 1 - rows / 2
    } else {
        0
    };
    let title: String = render_title(p.name, w);
    out.append(title.as_str());
    let ghost base = out@;
    let mut i: usize = 0;
    assert(base + preview_text(lines, start as int, h, term@, w as int, 0) =~= base);
    while i < rows
        invariant
            i <= rows,
            start + rows <= usize::MAX,
            lines == views(p.lines@),
            h == p.highlight,
            out@ == base + preview_text(lines, start as int, h, term@, w as int, i as int),
        decreases rows - i,
    {
        let at: usize = start + i;
        let ghost had = preview_text(lines, start as int, h, term@, w as int, i as int);
        if at < p.lines.len() {
            assert(lines[at as int] == p.lines@[at as int]@);
            let line: String = render_preview_line(
                p.lines[at].as_str(),
                at + 1,
                p.highlight,
                term,
                w,
            );
            out.append(line.as_str());
            assert(out@ =~= base + (had + line@));
        } else {
            push_spaces(out, w);
            assert(out@ =~= base + (had + spaces(w as int)));
        }
        i += 1;
    }
    assert(out@ =~= before + preview_pane(p.name@, lines, h, term@, w as int, rows as int));
}

/// Renders a whole frame, to be written at once.
pub fn render_frame(f: &Frame<'_>) -> (r: String)
    requires
        f.preview matches Some(p) ==> p.highlight + f.layout.preview_rows <= usize::MAX,
    ensures
        r@ == frame_text(*f),
{
    let w: usize = f.width;
    let mut out: String = fit(f.header.as_str(), w);
    push_spaces(&mut out, w);
    out.append(fit(f.search_line.as_str(), w).as_str());
    push_bars(&mut out, w);
    push_rows(&mut out, f);
    let ghost before = out@;
    match &f.preview {
        Some(p) => {
            push_preview(&mut out, p, f.term.as_str(), w, f.layout.preview_rows);
        },
        None => {
            assert(before + Seq::<char>::empty() =~= before);
        },
    }
    out
}

/// The lines of the help.
pub open spec fn help_text() -> Seq<Seq<char>> {
    seq![
        "  TurboFind - Help"@,
        ""@,
        "  SEARCH FILTERS:"@,
        "    ext:rs        Filter by file extension"@,
        "    dir:          Show only directories"@,
        "    in:path       Restrict to paths containing 'path'"@,
        "                  Use full path for prefix match: in:C:\\Dir"@,
        "    regex:pat     Regex match on filenames"@,
        "    grep:term     Search file contents (plain text)"@,
        "    content:term  Same as grep:"@,
        "    grep:pat regex:  Regex search file contents"@,
        ""@,
        "  DOCUMENT SEARCH (use ext: or in: to target):"@,
        "    ext:pdf grep:term    PDF (text-based only, not scanned)"@,
        "    ext:docx grep:term   Word documents"@,
        "    ext:xlsx grep:term   Excel spreadsheets"@,
        "    ext:pptx grep:term   PowerPoint slides"@,
        "    ext:odt/ods/odp      LibreOffice documents"@,
        "    ext:rtf grep:term    Rich Text Format"@,
        "    in:file.docx grep:term  Search specific document via in:"@,
        ""@,
        "  EXAMPLES:"@,
        "    budget              Fuzzy match all files"@,
        "    ext:rs config       Only .rs files matching 'config'"@,
        "    in:src ext:py       .py files under paths with 'src'"@,
        "    regex:\\.test\\.      Regex match filenames"@,
        "    grep:TODO in:src    Search contents under 'src'"@,
        ""@,
        "  KEYS:"@,
        "    Up/Down       Navigate results (scroll help)"@,
        "    PgUp/PgDown   Scroll by page"@,
        "    Home/End      Jump to first/last result"@,
        "    Tab           Complete in: with selected path (file or dir)"@,
        "    Ctrl+Left/Right  Jump cursor by word"@,
        "    Ctrl+Home/End Jump cursor to start/end"@,
        "    Ctrl+U        Clear search line"@,
        "    Ctrl+K        Delete to end of line"@,
        "    Ctrl+Bksp     Delete word before cursor"@,
        "    Ctrl+Del      Delete word after cursor"@,
        "    Enter         Show file in folder"@,
        "    Ctrl+O        Open file directly"@,
        "    Ctrl+R        Rebuild index"@,
        "    Ctrl+N        Add path to index"@,
        "    Ctrl+B        Run benchmark"@,
        "    F1            Toggle this help"@,
        "    Esc           Quit"@,
        ""@,
        "  CLI FLAGS:"@,
        "    --help      Show usage and exit"@,
        "    --reindex   Force rebuild (ignore cache)"@,
        "    --no-cache  Don't read or write cache"@,
    ]
}

/// The lines of the help.
pub fn help_lines() -> (r: Vec<&'static str>)
    ensures
        str_views(r@) == help_text(),
{
    let out: Vec<&'static str> = vec![
        "  TurboFind - Help",
        "",
        "  SEARCH FILTERS:",
        "    ext:rs        Filter by file extension",
        "    dir:          Show only directories",
        "    in:path       Restrict to paths containing 'path'",
        "                  Use full path for prefix match: in:C:\\Dir",
        "    regex:pat     Regex match on filenames",
        "    grep:term     Search file contents (plain text)",
        "    content:term  Same as grep:",
        "    grep:pat regex:  Regex search file contents",
        "",
        "  DOCUMENT SEARCH (use ext: or in: to target):",
        "    ext:pdf grep:term    PDF (text-based only, not scanned)",
        "    ext:docx grep:term   Word documents",
        "    ext:xlsx grep:term   Excel spreadsheets",
        "    ext:pptx grep:term   PowerPoint slides",
        "    ext:odt/ods/odp      LibreOffice documents",
        "    ext:rtf grep:term    Rich Text Format",
        "    in:file.docx grep:term  Search specific document via in:",
        "",
        "  EXAMPLES:",
        "    budget              Fuzzy match all files",
        "    ext:rs config       Only .rs files matching 'config'",
        "    in:src ext:py       .py files under paths with 'src'",
        "    regex:\\.test\\.      Regex match filenames",
        "    grep:TODO in:src    Search contents under 'src'",
        "",
        "  KEYS:",
        "    Up/Down       Navigate results (scroll help)",
        "    PgUp/PgDown   Scroll by page",
        "    Home/End      Jump to first/last result",
        "    Tab           Complete in: with selected path (file or dir)",
        "    Ctrl+Left/Right  Jump cursor by word",
        "    Ctrl+Home/End Jump cursor to start/end",
        "    Ctrl+U        Clear search line",
        "    Ctrl+K        Delete to end of line",
        "    Ctrl+Bksp     Delete word before cursor",
        "    Ctrl+Del      Delete word after cursor",
        "    Enter         Show file in folder",
        "    Ctrl+O        Open file directly",
        "    Ctrl+R        Rebuild index",
        "    Ctrl+N        Add path to index",
        "    Ctrl+B        Run benchmark",
        "    F1            Toggle this help",
        "    Esc           Quit",
        "",
        "  CLI FLAGS:",
        "    --help      Show usage and exit",
        "    --reindex   Force rebuild (ignore cache)",
        "    --no-cache  Don't read or write cache",
    ];
    assert(str_views(out@) =~= help_text());
    out
}

/// The first `n` rows of the help, from line `scroll` on; rows behind its end are blank.
pub open spec fn help_rows(lines: Seq<Seq<char>>, scroll: int, w: int, n: int) -> Seq<char>
    decreases n,
{
    if n <= 0 {
        Seq::empty()
    } else {
        help_rows(lines, scroll, w, n - 1) + if scroll + n - 1 < lines.len() {
            fitted(lines[scroll + n - 1], w)
        } else {
            spaces(w)
        }
    }
}

/// Renders the help, from line `scroll` on, in `rows` rows.
pub fn render_help(scroll: usize, rows: usize, w: usize) -> (r: String)
    requires
        scroll + rows <= usize::MAX,
    ensures
        r@ == help_rows(help_text(), scroll as int, w as int, rows as int),
{
    let all: Vec<&'static str> = help_lines();
    let ghost texts = help_text();
    let mut out: String = String::new();
    let mut i: usize = 0;
    while i < rows
        invariant
            i <= rows,
            scroll + rows <= usize::MAX,
            texts == str_views(all@),
            texts == help_text(),
            out@ == help_rows(texts, scroll as int, w as int, i as int),
        decreases rows - i,
    {
        let at: usize = scroll + i;
        if at < all.len() {
            assert(texts[at as int] == all@[at as int]@);
            out.append(fit(all[at], w).as_str());
        } else {
            push_spaces(&mut out, w);
        }
        i += 1;
    }
    out
}

/// The footer of the help, where it is scrolled to `scroll` of at most `most`.
pub open spec fn help_footer_text(scroll: int, most: int, w: int) -> Seq<char> {
    fitted(
        if most > 0 {
            "  F1/Esc:close | Up/Down/PgUp/PgDn:scroll ["@ + decimal((scroll + 1) as nat) + "/"@
                + decimal((most + 1) as nat) + "]"@
        } else {
            "  Press F1 or Esc to close help"@
        },
        w,
    )
}

/// The footer of the help.
pub fn help_footer(scroll: usize, most: usize, w: usize) -> (r: String)
    requires
        scroll < usize::MAX,
        most < usize::MAX,
    ensures
        r@ == help_footer_text(scroll as int, most as int, w as int),
{
    if most == 0 {
        return fit("  Press F1 or Esc to close help", w);
    }
    let mut out: String = copy_of("  F1/Esc:close | Up/Down/PgUp/PgDn:scroll [");
    push_decimal(&mut out, (scroll + 1) as u64);
    out.append("/");
    push_decimal(&mut out, (most + 1) as u64);
    out.append("]");
    fit(out.as_str(), w)
}

/// The footer with the keys.
pub fn footer(w: usize) -> (r: String)
    ensures
        r@ == fitted(
            "  F1:Help | Up/Dn/PgUp/PgDn | Tab:in:path | Ctrl+N:Add | Enter:Show | Ctrl+O:Open | Esc:Quit"@,
            w as int,
        ),
{
    fit(
        "  F1:Help | Up/Dn/PgUp/PgDn | Tab:in:path | Ctrl+N:Add | Enter:Show | Ctrl+O:Open | Esc:Quit",
        w,
    )
}

/// The dots of the note that a search is running.
pub open spec fn dots(n: int) -> Seq<char> {
    Seq::new(
        if n >= 0 {
            n as nat
        } else {
            0
        },
        |i: int| '.',
    )
}

/// The note that a search is running: `beat` counts how often it was shown, `millis` is how long
/// the search has run.
pub open spec fn searching_text(beat: int, millis: Seq<char>, w: int) -> Seq<char> {
    fitted(
        "  Searching"@ + dots(beat % 4) + spaces(4 - beat % 4) + " ("@ + millis
            + "ms) \u{2014} press Esc to cancel"@,
        w,
    )
}

/// The note that a search is running.
pub fn searching_note(beat: usize, millis: &str, w: usize) -> (r: String)
    ensures
        r@ == searching_text(beat as int, millis@, w as int),
{
    let n: usize = beat % 4;
    let mut out: String = copy_of("  Searching");
    let ghost before = out@;
    let mut i: usize = 0;
    assert(before + dots(0) =~= before);
    while i < n
        invariant
            i <= n,
            out@ == before + dots(i as int),
        decreases n - i,
    {
        out.push('.');
        i += 1;
        assert(out@ =~= before + dots(i as int));
    }
    push_spaces(&mut out, 4 - n);
    out.append(" (");
    out.append(millis);
    out.append("ms) \u{2014} press Esc to cancel");
    fit(out.as_str(), w)
}

} // verus!
