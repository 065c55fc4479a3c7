use vstd::prelude::*;

verus! {

/// The kind of a table cell element.
#[derive(Clone, Copy, Debug, PartialEq, Eq, Structural)]
pub enum Tag {
    Td,
    Th,
}

/// A value handed to the table by the host page.
///
/// Strings are interned by the host: two equal strings carry the same token,
/// so `==` on values matches the host's strict equality.
#[derive(Clone, Copy, Debug, PartialEq, Eq, Structural)]
pub enum CellValue {
    Undefined,
    Null,
    Text(u64),
    /// A renderable element owned by the host, by its handle.
    Element(u64),
}

/// What a cell shows.
#[derive(Clone, Copy, Debug, PartialEq, Eq, Structural)]
pub enum Content {
    Empty,
    /// The string of the token, as text content.
    Text(u64),
    /// A host element adopted as the only child.
    Child(u64),
    /// A header label (the string of the token) followed by a resize handle.
    Label(u64),
}

/// Positional and value record attached to a cell element.
#[derive(Clone, Copy, Debug, PartialEq, Eq)]
pub struct MetaData {
    pub value: CellValue,
    pub size_key: Option<u64>,
    pub column_header: CellValue,
    pub column_header_y: Option<usize>,
    /// Index of the row-header path (within the drawn column) of this cell's row.
    pub row_header: Option<usize>,
    pub row_header_x: Option<u64>,
    pub x: Option<u32>,
    pub x0: Option<u32>,
    pub x1: Option<u32>,
    pub y: Option<usize>,
    pub y0: Option<usize>,
    pub y1: Option<usize>,
    pub dx: Option<i64>,
    pub dy: Option<usize>,
    pub virtual_x: Option<usize>,
}

/// A live cell element: its tag, attributes, inline styles, content and metadata.
#[derive(Clone, Copy, Debug, PartialEq, Eq)]
pub struct Cell {
    pub tag: Tag,
    pub colspan: Option<usize>,
    pub rowspan: Option<usize>,
    /// Whether the cell carries its section's clip class (content wider than the column).
    pub clip: bool,
    /// Inline `min-width` in pixels; `None` when unset.
    pub min_width: Option<usize>,
    /// Inline `max-width` in pixels; `None` when unset.
    pub max_width: Option<usize>,
    pub content: Content,
    pub meta: MetaData,
}

/// A position in a rendered section.
#[derive(Clone, Copy, Debug, PartialEq, Eq, Structural)]
pub struct CellRef {
    pub row: usize,
    pub col: usize,
}

/// A structural change of a section's element tree, in the order it was made.
///
/// Rows and columns are positions in the section at the time of the change.
#[derive(Clone, Copy, Debug, PartialEq, Eq, Structural)]
pub enum DomOp {
    /// Create a row element and append it to the section.
    AppendRow,
    /// Detach the row element at `row`.
    RemoveRow { row: usize },
    /// Create a cell for slot `col` and append it as the row's last child.
    AppendCell { row: usize, col: usize, tag: Tag },
    /// Create a cell for the empty slot `col` and insert it before the element of
    /// slot `before`, or append it when `before` is `None`.
    InsertCell { row: usize, col: usize, tag: Tag, before: Option<usize> },
    /// Create a cell and put it in place of the element of slot `col`.
    ReplaceCell { row: usize, col: usize, tag: Tag },
    /// Detach the element of slot `col`, leaving the slot empty.
    RemoveCell { row: usize, col: usize },
    /// Detach the elements of the slots from `len` on, and forget those slots.
    TruncateRow { row: usize, len: usize },
}

pub open spec fn empty_metadata() -> MetaData {
    MetaData {
        value: CellValue::Undefined,
        size_key: None,
        column_header: CellValue::Undefined,
        column_header_y: None,
        row_header: None,
        row_header_x: None,
        x: None,
        x0: None,
        x1: None,
        y: None,
        y0: None,
        y1: None,
        dx: None,
        dy: None,
        virtual_x: None,
    }
}

/// A newly created cell element of kind `tag`.
pub open spec fn fresh_cell(tag: Tag) -> Cell {
    Cell {
        tag,
        colspan: None,
        rowspan: None,
        clip: false,
        min_width: None,
        max_width: None,
        content: Content::Empty,
        meta: empty_metadata(),
    }
}

impl MetaData {
    pub fn empty() -> (r: MetaData)
        ensures
            r == empty_metadata(),
    {
        MetaData {
            value: CellValue::Undefined,
            size_key: None,
            column_header: CellValue::Undefined,
            column_header_y: None,
            row_header: None,
            row_header_x: None,
            x: None,
            x0: None,
            x1: None,
            y: None,
            y0: None,
            y1: None,
            dx: None,
            dy: None,
            virtual_x: None,
        }
    }
}

impl Cell {
    pub fn fresh(tag: Tag) -> (r: Cell)
        ensures
            r == fresh_cell(tag),
    {
        Cell {
            tag,
            colspan: None,
            rowspan: None,
            clip: false,
            min_width: None,
            max_width: None,
            content: Content::Empty,
            meta: MetaData::empty(),
        }
    }
}

/// Width styles of a column cell: an override wins; else an automatic width
/// sets `min-width` and clears the clip class; else only `max-width` is reset.
pub open spec fn sized_cell(c: Cell, over: Option<usize>, auto: Option<usize>) -> Cell {
    match over {
        Some(o) => Cell {
            clip: auto is Some && auto->0 > o,
            min_width: Some(o),
            max_width: Some(o),
            ..c
        },
        None => match auto {
            Some(a) => Cell { clip: false, max_width: None, min_width: Some(a), ..c },
            None => Cell { max_width: None, ..c },
        },
    }
}

pub fn apply_sizing(c: Cell, over: Option<usize>, auto: Option<usize>) -> (r: Cell)
    ensures
        r == sized_cell(c, over, auto),
{
    let mut r = c;
    match over {
        Some(o) => {
            r.clip = match auto {
                Some(a) => a > o,
                None => false,
            };
            r.min_width = Some(o);
            r.max_width = Some(o);
        },
        None => match auto {
            Some(a) => {
                r.clip = false;
                r.max_width = None;
                r.min_width = Some(a);
            },
            None => {
                r.max_width = None;
            },
        },
    }
    r
}

/// What a cell shows for a drawn value.
pub open spec fn content_of(v: CellValue) -> Content {
    match v {
        CellValue::Undefined => Content::Empty,
        CellValue::Null => Content::Empty,
        CellValue::Text(t) => Content::Text(t),
        CellValue::Element(h) => Content::Child(h),
    }
}

pub fn render_value(v: CellValue) -> (r: Content)
    ensures
        r == content_of(v),
{
    match v {
        CellValue::Undefined => Content::Empty,
        CellValue::Null => Content::Empty,
        CellValue::Text(t) => Content::Text(t),
        CellValue::Element(h) => Content::Child(h),
    }
}

/// `x + 1`, kept at the largest value when it would not fit.
pub open spec fn bump(x: usize) -> usize {
    if x < usize::MAX {
        (x + 1) as usize
    } else {
        x
    }
}

} // verus!
