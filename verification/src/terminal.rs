//! Text for a terminal: what is handed over of what the text engine measures and
//! cuts.
use vstd::prelude::*;

verus! {

/// What stands for text that was cut off.
#[derive(Debug, Clone, Copy, PartialEq, Eq, Structural)]
pub enum Ellipsis {
    Unicode,
    Ascii,
    Omit,
}

/// How text is cut to a width: with an ellipsis, and padded or not.
#[derive(Debug, Clone, Copy, PartialEq, Eq, Structural)]
pub struct Truncation {
    pub ellipsis: Ellipsis,
    pub pad: bool,
}

/// How text is cut unless it is asked for otherwise: with the ellipsis of Unicode,
/// and not padded.
pub fn resolve_truncation(ellipsis: Option<Ellipsis>, pad: Option<bool>) -> (r: Truncation)
    ensures
        r.ellipsis == (match ellipsis {
            Some(e) => e,
            None => Ellipsis::Unicode,
        }),
        r.pad == (pad == Some(true)),
{
    Truncation {
        ellipsis: match ellipsis {
            Some(e) => e,
            None => Ellipsis::Unicode,
        },
        pad: match pad {
            Some(p) => p,
            None => false,
        },
    }
}

/// A width as far as 32 bits hold it.
pub fn clamp_u32(n: u64) -> (r: u32)
    ensures
        r == if n <= u32::MAX {
            n as u32
        } else {
            u32::MAX
        },
{
    if n <= u32::MAX as u64 {
        n as u32
    } else {
        u32::MAX
    }
}

/// `data` up to its last unit that is not zero.
pub open spec fn without_padding(data: Seq<u16>) -> Seq<u16>
    decreases data.len(),
{
    if data.len() > 0 && data.last() == 0 {
        without_padding(data.drop_last())
    } else {
        data
    }
}

/// The units of a string: `data` without the zeros at its end.
pub fn build_utf16_string(data: Vec<u16>) -> (r: Vec<u16>)
    ensures
        r@ == without_padding(data@),
{
    let ghost all = data@;
    let mut data = data;
    while data.len() > 0 && data[data.len() - 1] == 0
        invariant
            without_padding(data@) == without_padding(all),
        decreases data.len(),
    {
        let ghost before = data@;
        let _ = data.pop();
        assert(data@ =~= before.drop_last());
    }
    data
}

/// A string keeps what stands before the zeros at its end, and ends in no zero.
pub proof fn law_only_padding_is_dropped(data: Seq<u16>)
    ensures
        without_padding(data).is_prefix_of(data),
        without_padding(data).len() > 0 ==> without_padding(data).last() != 0,
        forall|i: int| without_padding(data).len() <= i < data.len() ==> #[trigger] data[i] == 0,
    decreases data.len(),
{
    if data.len() > 0 && data.last() == 0 {
        let d = data.drop_last();
        law_only_padding_is_dropped(d);
        assert forall|i: int| without_padding(data).len() <= i < data.len() implies #[trigger] data[i] == 0 by {
            if i < d.len() {
                assert(d[i] == 0);
            }
        }
    }
}

/// The lines of wrapped text.
pub fn wrap_text_with_ansi(lines: Vec<Vec<u16>>) -> (r: Vec<Vec<u16>>)
    ensures
        r@.len() == lines@.len(),
        forall|i: int| 0 <= i < lines@.len() ==> (#[trigger] r@[i])@ == without_padding(lines@[i]@),
{
    let mut out: Vec<Vec<u16>> = Vec::new();
    let mut i: usize = 0;
    while i < lines.len()
        invariant
            i <= lines.len(),
            out@.len() == i,
            forall|k: int| 0 <= k < i ==> (#[trigger] out@[k])@ == without_padding(lines@[k]@),
        decreases lines.len() - i,
    {
        let mut line: Vec<u16> = Vec::new();
        let mut j: usize = 0;
        while j < lines[i].len()
            invariant
                i < lines.len(),
                j <= lines@[i as int].len(),
                line@ == lines@[i as int]@.take(j as int),
            decreases lines@[i as int].len() - j,
        {
            line.push(lines[i][j]);
            assert(line@ =~= lines@[i as int]@.take(j + 1));
            j = j + 1;
        }
        assert(line@ =~= lines@[i as int]@);
        out.push(build_utf16_string(line));
        i = i + 1;
    }
    out
}

/// A part of a line, and how wide it is.
#[derive(Debug, PartialEq, Eq)]
pub struct SliceResult {
    pub text: Vec<u16>,
    pub width: u32,
}

/// A part of `length` columns of a line, given what was cut out and its width: no
/// column is nothing at all.
pub fn slice_with_width(length: u32, cut: Vec<u16>, width: u64) -> (r: SliceResult)
    ensures
        length == 0 ==> r.text@ == Seq::<u16>::empty() && r.width == 0,
        length > 0 ==> r.text@ == without_padding(cut@) && r.width == (if width <= u32::MAX {
            width as u32
        } else {
            u32::MAX
        }),
{
    if length == 0 {
        return SliceResult { text: Vec::new(), width: 0 };
    }
    SliceResult { text: build_utf16_string(cut), width: clamp_u32(width) }
}

/// The parts of a line before and after an overlay, and how wide they are.
#[derive(Debug, PartialEq, Eq)]
pub struct ExtractSegmentsResult {
    pub before: Vec<u16>,
    pub before_width: u32,
    pub after: Vec<u16>,
    pub after_width: u32,
}

/// The parts of a line before and after an overlay, given what was cut out.
pub fn extract_segments(before: Vec<u16>, before_width: u64, after: Vec<u16>, after_width: u64) -> (r:
    ExtractSegmentsResult)
    ensures
        r.before@ == without_padding(before@),
        r.after@ == without_padding(after@),
        r.before_width == (if before_width <= u32::MAX {
            before_width as u32
        } else {
            u32::MAX
        }),
        r.after_width == (if after_width <= u32::MAX {
            after_width as u32
        } else {
            u32::MAX
        }),
{
    ExtractSegmentsResult {
        before: build_utf16_string(before),
        before_width: clamp_u32(before_width),
        after: build_utf16_string(after),
        after_width: clamp_u32(after_width),
    }
}

} // verus!
