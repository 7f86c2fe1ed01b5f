//! The observable state of one session as a JSON document, for tests and
//! agents that poll it instead of reading pixels; and the checks a frame
//! passes before it is written as an image.

use vstd::prelude::*;
use crate::json::JsonValue;

verus! {

/// Cursor state, flattened for JSON.
#[derive(Debug, Clone, Copy, PartialEq, Eq)]
pub struct CursorSnapshot {
    pub row: u16,
    pub col: u16,
    pub shape: &'static str,
    pub blinking: bool,
    /// Whether the cursor would currently be painted.
    pub visible_now: bool,
}

/// A point in terminal cell coordinates.
#[derive(Debug, Clone, Copy, PartialEq, Eq, Structural)]
pub struct PointSnapshot {
    pub row: u16,
    pub col: u16,
}

/// The full observable state of one session, at one render.
#[derive(Debug, Clone, PartialEq, Eq)]
pub struct ScreenSnapshot {
    pub cols: u16,
    pub rows: u16,
    pub title: String,
    /// Plain text per visible row, right-trimmed, top row first.
    pub rows_text: Vec<String>,
    pub cursor: CursorSnapshot,
    pub scroll_offset: usize,
    pub max_scrollback: usize,
    pub selection: Option<(PointSnapshot, PointSnapshot)>,
    pub ime_preedit: String,
    pub child_alive: bool,
    pub child_exit_code: Option<i32>,
    pub font_size_px: u16,
}

pub open spec fn number(n: u64) -> JsonValue {
    JsonValue::Number(Some(n))
}

/// The keys of a snapshot document, in order.
pub open spec fn snapshot_keys() -> Seq<Seq<char>> {
    seq![
        "cols"@,
        "rows"@,
        "title"@,
        "rows_text"@,
        "cursor"@,
        "scroll_offset"@,
        "max_scrollback"@,
        "selection"@,
        "ime_preedit"@,
        "child_alive"@,
        "child_exit_code"@,
        "font_size_px"@,
    ]
}

/// Whether `members` are `(key, value)` pairs with these keys and values.
pub open spec fn members_are(members: Seq<(String, JsonValue)>, keys: Seq<Seq<char>>, values: Seq<JsonValue>) -> bool {
    &&& members.len() == keys.len()
    &&& keys.len() == values.len()
    &&& forall|i: int| 0 <= i < members.len() ==> (#[trigger] members[i]).0@ == keys[i] && members[i].1 == values[i]
}

pub open spec fn point_json(point: PointSnapshot, document: JsonValue) -> bool {
    document matches JsonValue::Object(m) && members_are(
        m@,
        seq!["row"@, "col"@],
        seq![number(point.row as u64), number(point.col as u64)],
    )
}

fn point(p: PointSnapshot) -> (document: JsonValue)
    ensures
        point_json(p, document),
{
    let mut members: Vec<(String, JsonValue)> = Vec::new();
    members.push(("row".to_owned(), JsonValue::Number(Some(p.row as u64))));
    members.push(("col".to_owned(), JsonValue::Number(Some(p.col as u64))));
    JsonValue::Object(members)
}

/// Whether `items` are the strings `texts`, in order.
pub open spec fn strings_are(items: Seq<JsonValue>, texts: Seq<String>) -> bool {
    &&& items.len() == texts.len()
    &&& forall|i: int| 0 <= i < items.len() ==> (#[trigger] items[i]) == JsonValue::Str(texts[i])
}

/// Whether `document` is the cursor object of `cursor`.
pub open spec fn cursor_json(cursor: CursorSnapshot, document: JsonValue) -> bool {
    document matches JsonValue::Object(c) && c@.len() == 5 && members_are(
        c@,
        seq!["row"@, "col"@, "shape"@, "blinking"@, "visible_now"@],
        seq![
            number(cursor.row as u64),
            number(cursor.col as u64),
            c@[2].1,
            JsonValue::Bool(cursor.blinking),
            JsonValue::Bool(cursor.visible_now),
        ],
    ) && (c@[2].1 matches JsonValue::Str(shape) && shape@ == cursor.shape@)
}

/// Whether `document` is the selection value of `selection`.
pub open spec fn selection_json(selection: Option<(PointSnapshot, PointSnapshot)>, document: JsonValue) -> bool {
    match selection {
        None => document == JsonValue::Null,
        Some((start, end)) => document matches JsonValue::Array(pair) && pair@.len() == 2
            && point_json(start, pair@[0]) && point_json(end, pair@[1]),
    }
}

/// Whether `document` is the JSON object of `snapshot`: every field under
/// its own name, in declaration order; the selection as a pair of points or
/// `null`, the exit code as a number or `null`.
pub open spec fn snapshot_document(snapshot: ScreenSnapshot, document: JsonValue) -> bool {
    document matches JsonValue::Object(m) && m@.len() == 12 && {
        &&& forall|i: int| 0 <= i < 12 ==> (#[trigger] m@[i]).0@ == snapshot_keys()[i]
        &&& m@[0].1 == number(snapshot.cols as u64)
        &&& m@[1].1 == number(snapshot.rows as u64)
        &&& m@[2].1 == JsonValue::Str(snapshot.title)
        &&& (m@[3].1 matches JsonValue::Array(rows) && strings_are(rows@, snapshot.rows_text@))
        &&& cursor_json(snapshot.cursor, m@[4].1)
        &&& m@[5].1 == number(snapshot.scroll_offset as u64)
        &&& m@[6].1 == number(snapshot.max_scrollback as u64)
        &&& selection_json(snapshot.selection, m@[7].1)
        &&& m@[8].1 == JsonValue::Str(snapshot.ime_preedit)
        &&& m@[9].1 == JsonValue::Bool(snapshot.child_alive)
        &&& m@[10].1 == match snapshot.child_exit_code {
            None => JsonValue::Null,
            Some(code) => JsonValue::Signed(code as i64),
        }
        &&& m@[11].1 == number(snapshot.font_size_px as u64)
    }
}

/// The snapshot as a JSON object.
pub fn snapshot_json(snapshot: &ScreenSnapshot) -> (document: JsonValue)
    ensures
        snapshot_document(*snapshot, document),
{
    let mut rows: Vec<JsonValue> = Vec::new();
    let mut i: usize = 0;
    while i < snapshot.rows_text.len()
        invariant
            i <= snapshot.rows_text@.len(),
            rows@.len() == i,
            forall|j: int| 0 <= j < i ==> (#[trigger] rows@[j]) == JsonValue::Str(
                snapshot.rows_text@[j],
            ),
        decreases snapshot.rows_text@.len() - i,
    {
        rows.push(JsonValue::Str(snapshot.rows_text[i].clone()));
        i = i + 1;
    }
    let mut cursor: Vec<(String, JsonValue)> = Vec::new();
    cursor.push(("row".to_owned(), JsonValue::Number(Some(snapshot.cursor.row as u64))));
    cursor.push(("col".to_owned(), JsonValue::Number(Some(snapshot.cursor.col as u64))));
    cursor.push(("shape".to_owned(), JsonValue::Str(snapshot.cursor.shape.to_owned())));
    cursor.push(("blinking".to_owned(), JsonValue::Bool(snapshot.cursor.blinking)));
    cursor.push(("visible_now".to_owned(), JsonValue::Bool(snapshot.cursor.visible_now)));
    let selection = match snapshot.selection {
        None => JsonValue::Null,
        Some((start, end)) => {
            let mut pair: Vec<JsonValue> = Vec::new();
            pair.push(point(start));
            pair.push(point(end));
            JsonValue::Array(pair)
        },
    };
    let exit_code = match snapshot.child_exit_code {
        None => JsonValue::Null,
        Some(code) => JsonValue::Signed(code as i64),
    };
    let mut members: Vec<(String, JsonValue)> = Vec::new();
    members.push(("cols".to_owned(), JsonValue::Number(Some(snapshot.cols as u64))));
    members.push(("rows".to_owned(), JsonValue::Number(Some(snapshot.rows as u64))));
    members.push(("title".to_owned(), JsonValue::Str(snapshot.title.clone())));
    members.push(("rows_text".to_owned(), JsonValue::Array(rows)));
    members.push(("cursor".to_owned(), JsonValue::Object(cursor)));
    members.push(("scroll_offset".to_owned(), JsonValue::Number(Some(snapshot.scroll_offset as u64))));
    members.push(("max_scrollback".to_owned(), JsonValue::Number(Some(snapshot.max_scrollback as u64))));
    members.push(("selection".to_owned(), selection));
    members.push(("ime_preedit".to_owned(), JsonValue::Str(snapshot.ime_preedit.clone())));
    members.push(("child_alive".to_owned(), JsonValue::Bool(snapshot.child_alive)));
    members.push(("child_exit_code".to_owned(), exit_code));
    members.push(("font_size_px".to_owned(), JsonValue::Number(Some(snapshot.font_size_px as u64))));
    JsonValue::Object(members)
}

/// Why a `width` by `height` frame of `pixel_count` pixels cannot be written
/// as an image: dimensions whose product overflows, a zero dimension, or a
/// pixel count that does not match.
pub open spec fn png_dimensions_error(pixel_count: nat, width: nat, height: nat) -> Option<Seq<char>> {
    if width * height > usize::MAX {
        Some("PNG dimensions overflow"@)
    } else if width == 0 || height == 0 {
        Some("PNG dimensions must be non-zero"@)
    } else if pixel_count != width * height {
        Some("PNG pixel count does not match dimensions"@)
    } else {
        None
    }
}

/// Checks a frame before it is encoded; the message says what is wrong.
pub fn check_png_dimensions(pixel_count: usize, width: u32, height: u32) -> (result: Result<(), &'static str>)
    ensures
        match png_dimensions_error(pixel_count as nat, width as nat, height as nat) {
            None => result is Ok,
            Some(m) => result matches Err(e) && e@ == m,
        },
{
    assert((width as u128) * (height as u128) <= u128::MAX) by (nonlinear_arith)
        requires
            width <= u32::MAX,
            height <= u32::MAX,
    ;
    let product = (width as u128) * (height as u128);
    if product > usize::MAX as u128 {
        return Err("PNG dimensions overflow");
    }
    if width == 0 || height == 0 {
        return Err("PNG dimensions must be non-zero");
    }
    if pixel_count as u128 != product {
        return Err("PNG pixel count does not match dimensions");
    }
    Ok(())
}

} // verus!
