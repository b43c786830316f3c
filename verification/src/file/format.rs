//! Choosing the export format from a file path.

use vstd::prelude::*;
use vstd::string::{StrSliceExecFns, StringExecFns};

verus! {

/// The image formats a document can be exported to.
#[derive(Clone, Copy, Debug, PartialEq, Eq, Structural)]
pub enum ImageFormat {
    Bmp,
    Png,
}

pub open spec fn extension_chars(format: ImageFormat) -> Seq<char> {
    match format {
        ImageFormat::Bmp => seq!['b', 'm', 'p'],
        ImageFormat::Png => seq!['p', 'n', 'g'],
    }
}

impl ImageFormat {
    /// The usual file extension, lower case and without the dot.
    pub fn extension(self) -> (extension: &'static str)
        ensures
            extension@ == extension_chars(self),
    {
        match self {
            ImageFormat::Bmp => {
                proof {
                    reveal_strlit("bmp");
                }
                "bmp"
            },
            ImageFormat::Png => {
                proof {
                    reveal_strlit("png");
                }
                "png"
            },
        }
    }
}

pub open spec fn is_separator(c: char) -> bool {
    c == '/' || c == '\\'
}

pub open spec fn is_ascii_letter(c: char) -> bool {
    ('a' <= c <= 'z') || ('A' <= c <= 'Z')
}

/// Length of a drive prefix such as `C:`: two when the path starts with an
/// ASCII letter and a colon, else zero.
pub open spec fn prefix_length(path: Seq<char>) -> int {
    if path.len() >= 2 && is_ascii_letter(path[0]) && path[1] == ':' {
        2
    } else {
        0
    }
}

/// Where the component that ends at `end` starts: just after the last
/// separator before `end`, and not before `floor`.
pub open spec fn component_start(path: Seq<char>, floor: int, end: int) -> int
    decreases end - floor,
{
    if end <= floor {
        floor
    } else if is_separator(path[end - 1]) {
        end
    } else {
        component_start(path, floor, end - 1)
    }
}

/// The bounds of the last component of `path[floor..end]`, skipping
/// trailing separators and `.` components; `None` when no component is
/// left or the last one is `..`.
pub open spec fn last_name(path: Seq<char>, floor: int, end: int) -> Option<(int, int)>
    decreases end - floor,
{
    if end <= floor {
        None
    } else if is_separator(path[end - 1]) {
        last_name(path, floor, end - 1)
    } else {
        let start = component_start(path, floor, end);
        if end - start == 1 && path[start] == '.' {
            last_name(path, floor, end - 1)
        } else if end - start == 2 && path[start] == '.' && path[start + 1] == '.' {
            None
        } else {
            Some((start, end))
        }
    }
}

/// The bounds of the path's file name, after any drive prefix.
pub open spec fn file_name_range(path: Seq<char>) -> Option<(int, int)> {
    last_name(path, prefix_length(path), path.len() as int)
}

/// Index of the last `.` at or after `from`, if any.
pub open spec fn last_dot(path: Seq<char>, from: int) -> Option<int>
    decreases path.len(),
{
    if path.len() == 0 || path.len() <= from {
        None
    } else if path.last() == '.' {
        Some(path.len() - 1)
    } else {
        last_dot(path.drop_last(), from)
    }
}

/// Where the extension's dot stands: the last `.` of the file name, unless
/// that is its first character. A path without a file name has no
/// extension.
pub open spec fn extension_dot(path: Seq<char>) -> Option<int> {
    match file_name_range(path) {
        Some((start, end)) => match last_dot(path.subrange(0, end), start) {
            Some(dot) => if dot > start {
                Some(dot)
            } else {
                None
            },
            None => None,
        },
        None => None,
    }
}

pub open spec fn ascii_lower(c: char) -> char {
    if 'A' <= c <= 'Z' {
        ((c as u32) + 32) as char
    } else {
        c
    }
}

/// The format an extension names, ignoring ASCII case.
pub open spec fn format_named(extension: Seq<char>) -> Option<ImageFormat> {
    if extension.len() == 3 && ascii_lower(extension[0]) == 'b' && ascii_lower(extension[1]) == 'm'
        && ascii_lower(extension[2]) == 'p' {
        Some(ImageFormat::Bmp)
    } else if extension.len() == 3 && ascii_lower(extension[0]) == 'p' && ascii_lower(extension[1]) == 'n'
        && ascii_lower(extension[2]) == 'g' {
        Some(ImageFormat::Png)
    } else {
        None
    }
}

pub open spec fn path_format(path: Seq<char>) -> Option<ImageFormat> {
    match file_name_range(path) {
        Some((_, end)) => match extension_dot(path) {
            Some(dot) => format_named(path.subrange(dot + 1, end)),
            None => None,
        },
        None => None,
    }
}

/// The export format for `path` and the file dialog's filter: the path's
/// extension decides, else filter 2 (BMP), else PNG.
pub open spec fn chosen_format(path: Seq<char>, filter: u32) -> ImageFormat {
    match path_format(path) {
        Some(format) => format,
        None => if filter == 2 {
            ImageFormat::Bmp
        } else {
            ImageFormat::Png
        },
    }
}

/// `path` once the extension of its file name, added if missing, is that
/// of `format`; whatever followed the file name goes. A path without a file
/// name stays as it is.
pub open spec fn with_extension(path: Seq<char>, format: ImageFormat) -> Seq<char> {
    match file_name_range(path) {
        Some((_, end)) => {
            let stem_end = match extension_dot(path) {
                Some(dot) => dot,
                None => end,
            };
            path.subrange(0, stem_end) + seq!['.'] + extension_chars(format)
        },
        None => path,
    }
}

fn lower(c: char) -> (lowered: char)
    ensures
        lowered == ascii_lower(c),
{
    if 'A' <= c && c <= 'Z' {
        ((c as u32) + 32) as u8 as char
    } else {
        c
    }
}

fn is_separator_char(c: char) -> (separator: bool)
    ensures
        separator == is_separator(c),
{
    c == '/' || c == '\\'
}

/// The bounds of the file name of `text`, as `file_name_range` gives them.
fn file_name_bounds(text: &str) -> (bounds: Option<(usize, usize)>)
    ensures
        match bounds {
            Some((start, end)) => file_name_range(text@) == Some((start as int, end as int)),
            None => file_name_range(text@) is None,
        },
        bounds matches Some((start, end)) ==> start < end <= text@.len(),
{
    let ghost path = text@;
    let length = text.unicode_len();
    let floor: usize = if length >= 2 && text.get_char(1) == ':' && {
        let c = text.get_char(0);
        ('a' <= c && c <= 'z') || ('A' <= c && c <= 'Z')
    } {
        2
    } else {
        0
    };
    let mut end = length;
    while end > floor
        invariant
            floor <= end <= length,
            length == path.len(),
            text@ == path,
            floor as int == prefix_length(path),
            last_name(path, floor as int, end as int) == file_name_range(path),
        decreases end,
    {
        if is_separator_char(text.get_char(end - 1)) {
            end = end - 1;
        } else {
            let mut start = end - 1;
            while start > floor && !is_separator_char(text.get_char(start - 1))
                invariant
                    floor <= start < end <= length,
                    length == path.len(),
                    text@ == path,
                    !is_separator(path[end - 1]),
                    component_start(path, floor as int, end as int) == component_start(path, floor as int, start as int),
                decreases start,
            {
                start = start - 1;
            }
            assert(component_start(path, floor as int, start as int) == start);
            if end - start == 1 && text.get_char(start) == '.' {
                end = end - 1;
            } else if end - start == 2 && text.get_char(start) == '.' && text.get_char(start + 1) == '.' {
                return None;
            } else {
                return Some((start, end));
            }
        }
    }
    None
}

/// The extension's dot of the file name that spans `start..end` of `text`.
fn find_extension_dot(text: &str, start: usize, end: usize) -> (dot_at: Option<usize>)
    requires
        file_name_range(text@) == Some((start as int, end as int)),
        start < end <= text@.len(),
    ensures
        match extension_dot(text@) {
            Some(d) => start < d < end && dot_at == Some(d as usize),
            None => dot_at is None,
        },
{
    let ghost original = text@;
    let mut dot: Option<usize> = None;
    let mut j: usize = start;
    while j < end
        invariant
            start <= j <= end,
            end <= original.len(),
            text@ == original,
            dot matches Some(d) ==> d >= start,
            match dot {
                Some(d) => last_dot(original.subrange(0, j as int), start as int) == Some(d as int),
                None => last_dot(original.subrange(0, j as int), start as int) is None,
            },
        decreases end - j,
    {
        proof {
            assert(original.subrange(0, j + 1).drop_last() =~= original.subrange(0, j as int));
            if j == start {
                assert(last_dot(original.subrange(0, j as int), start as int) is None);
            }
        }
        if text.get_char(j) == '.' {
            dot = Some(j);
        }
        j += 1;
    }
    proof {
        lemma_last_dot_bound(original.subrange(0, end as int), start as int);
    }
    match dot {
        Some(d) => if d > start {
            Some(d)
        } else {
            None
        },
        None => None,
    }
}

/// The file name of `path` without its extension, when it has a file name.
pub open spec fn file_stem(path: Seq<char>) -> Option<Seq<char>> {
    match file_name_range(path) {
        Some((start, end)) => Some(
            path.subrange(
                start,
                match extension_dot(path) {
                    Some(dot) => dot,
                    None => end,
                },
            ),
        ),
        None => None,
    }
}

/// The name of a layer imported from the file at `path`: the file's stem,
/// or `IMPORTED PNG` when the path names no file.
pub fn imported_layer_name(path: &str) -> (name: String)
    ensures
        name@ == match file_stem(path@) {
            Some(stem) => stem,
            None => "IMPORTED PNG"@,
        },
{
    match file_name_bounds(path) {
        Some((start, end)) => {
            let stem_end = match find_extension_dot(path, start, end) {
                Some(dot) => dot,
                None => end,
            };
            <String as StringExecFns>::from_str(path.substring_char(start, stem_end))
        },
        None => {
            proof {
                reveal_strlit("IMPORTED PNG");
            }
            <String as StringExecFns>::from_str("IMPORTED PNG")
        },
    }
}

/// Picks the export format from the extension of the path's file name, or
/// from the dialog's filter (2 is BMP) when that is not BMP or PNG; in that
/// case the file name gets the chosen format's extension.
pub fn export_format(path: &mut String, filter: u32) -> (format: ImageFormat)
    ensures
        format == chosen_format(old(path)@, filter),
        final(path)@ == if path_format(old(path)@) is Some {
            old(path)@
        } else {
            with_extension(old(path)@, format)
        },
{
    let ghost original = path@;
    let text = path.as_str();
    let bounds = file_name_bounds(text);
    let dot_at = match bounds {
        Some((start, end)) => find_extension_dot(text, start, end),
        None => None,
    };
    assert(dot_at == match extension_dot(original) {
        Some(d) => Some(d as usize),
        None => None::<usize>,
    });
    let named = match (bounds, dot_at) {
        (Some((_, end)), Some(d)) => {
            if end - d == 4 {
                let a = lower(text.get_char(d + 1));
                let b = lower(text.get_char(d + 2));
                let c = lower(text.get_char(d + 3));
                let ghost extension = original.subrange(d + 1, end as int);
                assert(extension[0] == original[d + 1] && extension[1] == original[d + 2] && extension[2]
                    == original[d + 3]);
                if a == 'b' && b == 'm' && c == 'p' {
                    Some(ImageFormat::Bmp)
                } else if a == 'p' && b == 'n' && c == 'g' {
                    Some(ImageFormat::Png)
                } else {
                    None
                }
            } else {
                None
            }
        },
        _ => None,
    };
    let format = match named {
        Some(format) => format,
        None => if filter == 2 {
            ImageFormat::Bmp
        } else {
            ImageFormat::Png
        },
    };
    if named.is_none() {
        if let Some((_, end)) = bounds {
            let stem_end = match dot_at {
                Some(d) => d,
                None => end,
            };
            let mut renamed = <String as StringExecFns>::from_str(text.substring_char(0, stem_end));
            proof {
                reveal_strlit(".");
            }
            renamed.append(".");
            renamed.append(format.extension());
            assert(renamed@ =~= with_extension(original, format));
            *path = renamed;
        }
    }
    format
}

proof fn lemma_last_dot_bound(path: Seq<char>, from: int)
    ensures
        last_dot(path, from) matches Some(dot) ==> from <= dot < path.len() && 0 <= dot && path[dot] == '.',
    decreases path.len(),
{
    if path.len() > 0 && path.len() > from && path.last() != '.' {
        lemma_last_dot_bound(path.drop_last(), from);
        if let Some(dot) = last_dot(path.drop_last(), from) {
            assert(path.drop_last()[dot] == path[dot]);
        }
    }
}

} // verus!
