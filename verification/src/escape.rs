//! Text made fit for XML and for the cells of a Markdown table.

use vstd::prelude::*;

use crate::text;

verus! {

/// What stands for `c` in XML text and attribute values.
pub open spec fn xml_char(c: char) -> Seq<char> {
    if c == '&' {
        "&amp;"@
    } else if c == '<' {
        "&lt;"@
    } else if c == '>' {
        "&gt;"@
    } else if c == '"' {
        "&quot;"@
    } else if c == '\'' {
        "&apos;"@
    } else {
        seq![c]
    }
}

/// `value` as XML text.
pub open spec fn xml_text(value: Seq<char>) -> Seq<char>
    decreases value.len(),
{
    if value.len() == 0 {
        seq![]
    } else {
        xml_char(value[0]) + xml_text(value.drop_first())
    }
}

/// What stands for `c` in a cell of a Markdown table.
pub open spec fn cell_char(c: char) -> Seq<char> {
    if c == '\\' {
        seq!['\\', '\\']
    } else if c == '|' {
        seq!['\\', '|']
    } else if c == '\n' || c == '\r' {
        seq![' ']
    } else {
        seq![c]
    }
}

/// `value` as a cell of a Markdown table.
pub open spec fn cell_text(value: Seq<char>) -> Seq<char>
    decreases value.len(),
{
    if value.len() == 0 {
        seq![]
    } else {
        cell_char(value[0]) + cell_text(value.drop_first())
    }
}

/// `value` as XML text: the five characters with a meaning of their own become entities.
pub fn escape_xml(value: &str) -> (escaped: String)
    ensures
        escaped@ == xml_text(value@),
{
    let chars = text::chars_of(value);
    let mut escaped = String::new();
    let mut i: usize = 0;
    assert(value@.skip(0) =~= value@);
    assert(escaped@ + xml_text(value@) =~= xml_text(value@));
    while i < chars.len()
        invariant
            i <= chars@.len(),
            chars@ == value@,
            escaped@ + xml_text(value@.skip(i as int)) == xml_text(value@),
        decreases chars@.len() - i,
    {
        let c = chars[i];
        let ghost before = escaped@;
        if c == '&' {
            escaped.append("&amp;");
        } else if c == '<' {
            escaped.append("&lt;");
        } else if c == '>' {
            escaped.append("&gt;");
        } else if c == '"' {
            escaped.append("&quot;");
        } else if c == '\'' {
            escaped.append("&apos;");
        } else {
            escaped.push(c);
        }
        proof {
            let rest = value@.skip(i as int);
            let tail = value@.skip(i + 1);
            assert(rest.drop_first() =~= tail);
            assert(escaped@ =~= before + xml_char(c));
            assert(before + xml_char(c) + xml_text(tail) =~= before + (xml_char(c) + xml_text(
                tail,
            )));
        }
        i = i + 1;
    }
    assert(escaped@ =~= escaped@ + xml_text(value@.skip(i as int)));
    escaped
}

/// `value` as the value of an XML attribute.
pub fn escape_xml_attr(value: &str) -> (escaped: String)
    ensures
        escaped@ == xml_text(value@),
{
    escape_xml(value)
}

/// `value` as a cell of a Markdown table: backslashes and bars are escaped, and line breaks
/// become spaces.
pub fn markdown_cell(value: &str) -> (cell: String)
    ensures
        cell@ == cell_text(value@),
{
    let chars = text::chars_of(value);
    let mut cell = String::new();
    let mut i: usize = 0;
    assert(value@.skip(0) =~= value@);
    assert(cell@ + cell_text(value@) =~= cell_text(value@));
    while i < chars.len()
        invariant
            i <= chars@.len(),
            chars@ == value@,
            cell@ + cell_text(value@.skip(i as int)) == cell_text(value@),
        decreases chars@.len() - i,
    {
        let c = chars[i];
        let ghost before = cell@;
        if c == '\\' {
            cell.push('\\');
            cell.push('\\');
        } else if c == '|' {
            cell.push('\\');
            cell.push('|');
        } else if c == '\n' || c == '\r' {
            cell.push(' ');
        } else {
            cell.push(c);
        }
        proof {
            let rest = value@.skip(i as int);
            let tail = value@.skip(i + 1);
            assert(rest.drop_first() =~= tail);
            assert(cell@ =~= before + cell_char(c));
            assert(before + cell_char(c) + cell_text(tail) =~= before + (cell_char(c) + cell_text(
                tail,
            )));
        }
        i = i + 1;
    }
    assert(cell@ =~= cell@ + cell_text(value@.skip(i as int)));
    cell
}

/// Whether `c` could open or close a tag or end an attribute value.
pub open spec fn is_markup(c: char) -> bool {
    c == '<' || c == '>' || c == '"' || c == '\''
}

/// Escaped text can neither open or close a tag nor end an attribute value.
pub proof fn law_escaped_xml_holds_no_markup(value: Seq<char>)
    ensures
        forall|i: int| 0 <= i < xml_text(value).len() ==> !is_markup(#[trigger] xml_text(value)[i]),
    decreases value.len(),
{
    if value.len() > 0 {
        law_escaped_xml_holds_no_markup(value.drop_first());
        lemma_entities();
        let head = xml_char(value[0]);
        let tail = xml_text(value.drop_first());
        assert forall|i: int| 0 <= i < xml_text(value).len() implies !is_markup(
            #[trigger] xml_text(value)[i],
        ) by {
            if i < head.len() {
                assert(xml_text(value)[i] == head[i]);
            } else {
                assert(xml_text(value)[i] == tail[i - head.len()]);
            }
        }
    }
}

proof fn lemma_entities()
    ensures
        "&amp;"@ == seq!['&', 'a', 'm', 'p', ';'],
        "&lt;"@ == seq!['&', 'l', 't', ';'],
        "&gt;"@ == seq!['&', 'g', 't', ';'],
        "&quot;"@ == seq!['&', 'q', 'u', 'o', 't', ';'],
        "&apos;"@ == seq!['&', 'a', 'p', 'o', 's', ';'],
{
    reveal_strlit("&amp;");
    reveal_strlit("&lt;");
    reveal_strlit("&gt;");
    reveal_strlit("&quot;");
    reveal_strlit("&apos;");
    assert("&amp;"@ =~= seq!['&', 'a', 'm', 'p', ';']);
    assert("&lt;"@ =~= seq!['&', 'l', 't', ';']);
    assert("&gt;"@ =~= seq!['&', 'g', 't', ';']);
    assert("&quot;"@ =~= seq!['&', 'q', 'u', 'o', 't', ';']);
    assert("&apos;"@ =~= seq!['&', 'a', 'p', 'o', 's', ';']);
}

/// What a reader of XML makes of `xml`: entities become the characters they stand for.
pub open spec fn xml_read(xml: Seq<char>) -> Seq<char>
    decreases xml.len(),
{
    if xml.len() == 0 {
        seq![]
    } else if xml.len() >= 5 && xml.take(5) == "&amp;"@ {
        seq!['&'] + xml_read(xml.skip(5))
    } else if xml.len() >= 4 && xml.take(4) == "&lt;"@ {
        seq!['<'] + xml_read(xml.skip(4))
    } else if xml.len() >= 4 && xml.take(4) == "&gt;"@ {
        seq!['>'] + xml_read(xml.skip(4))
    } else if xml.len() >= 6 && xml.take(6) == "&quot;"@ {
        seq!['"'] + xml_read(xml.skip(6))
    } else if xml.len() >= 6 && xml.take(6) == "&apos;"@ {
        seq!['\''] + xml_read(xml.skip(6))
    } else {
        seq![xml[0]] + xml_read(xml.drop_first())
    }
}

/// A reader of XML gets back the very text that was escaped.
pub proof fn law_xml_reads_back(value: Seq<char>)
    ensures
        xml_read(xml_text(value)) == value,
    decreases value.len(),
{
    if value.len() == 0 {
        assert(xml_read(xml_text(value)) =~= value);
    } else {
        lemma_entities();
        let c = value[0];
        let head = xml_char(c);
        let tail = xml_text(value.drop_first());
        let xml = head + tail;
        law_xml_reads_back(value.drop_first());
        assert(xml.skip(head.len() as int) =~= tail);
        assert(xml.take(head.len() as int) =~= head);
        if c != '&' && c != '<' && c != '>' && c != '"' && c != '\'' {
            assert(xml[0] == c);
            assert(xml.len() >= 4 ==> xml.take(4)[0] == c);
            assert(xml.len() >= 5 ==> xml.take(5)[0] == c);
            assert(xml.len() >= 6 ==> xml.take(6)[0] == c);
            assert(xml.drop_first() =~= tail);
        } else {
            assert(xml.len() >= 4 ==> xml.take(4)[1] == head[1]);
            assert(xml.len() >= 5 ==> xml.take(5)[1] == head[1] && xml.take(5)[2] == head[2]);
            assert(xml.len() >= 6 ==> xml.take(6)[1] == head[1] && xml.take(6)[2] == head[2]);
        }
        assert(seq![c] + value.drop_first() =~= value);
    }
}

/// Whether `cell` keeps its table row whole: read from the left with backslash escapes, it holds
/// no bar, no line break and no unfinished escape.
pub open spec fn keeps_row_whole(cell: Seq<char>) -> bool
    decreases cell.len(),
{
    if cell.len() == 0 {
        true
    } else if cell[0] == '\\' {
        cell.len() >= 2 && cell[1] != '\n' && cell[1] != '\r' && keeps_row_whole(cell.skip(2))
    } else {
        cell[0] != '|' && cell[0] != '\n' && cell[0] != '\r' && keeps_row_whole(cell.skip(1))
    }
}

/// What a reader of Markdown makes of `cell`: an escaped character stands for itself.
pub open spec fn cell_read(cell: Seq<char>) -> Seq<char>
    decreases cell.len(),
{
    if cell.len() == 0 {
        seq![]
    } else if cell[0] == '\\' && cell.len() >= 2 {
        seq![cell[1]] + cell_read(cell.skip(2))
    } else {
        seq![cell[0]] + cell_read(cell.skip(1))
    }
}

/// `c`, or a space for a line break.
pub open spec fn on_one_line(c: char) -> char {
    if c == '\n' || c == '\r' {
        ' '
    } else {
        c
    }
}

/// A cell never breaks out of its table row, and a reader of the table gets back the value with
/// its line breaks as spaces.
pub proof fn law_cells_keep_their_row(value: Seq<char>)
    ensures
        keeps_row_whole(cell_text(value)),
        cell_read(cell_text(value)) == value.map_values(|c: char| on_one_line(c)),
    decreases value.len(),
{
    let lined = value.map_values(|c: char| on_one_line(c));
    if value.len() == 0 {
        assert(cell_read(cell_text(value)) =~= lined);
    } else {
        let c = value[0];
        let head = cell_char(c);
        let rest = value.drop_first();
        let tail = cell_text(rest);
        let cell = head + tail;
        law_cells_keep_their_row(rest);
        assert(cell.skip(head.len() as int) =~= tail);
        assert(cell[0] == head[0]);
        assert(head.len() == 2 ==> cell[1] == head[1]);
        assert(seq![on_one_line(c)] + rest.map_values(|c: char| on_one_line(c)) =~= lined);
    }
}

/// How many bars in `markdown` separate table cells: those that no backslash escapes.
pub open spec fn bare_bars(markdown: Seq<char>) -> nat
    decreases markdown.len(),
{
    if markdown.len() == 0 {
        0
    } else if markdown[0] == '\\' {
        if markdown.len() >= 2 {
            bare_bars(markdown.skip(2))
        } else {
            0
        }
    } else if markdown[0] == '|' {
        1 + bare_bars(markdown.skip(1))
    } else {
        bare_bars(markdown.skip(1))
    }
}

/// Whether `markdown` ends in a backslash that would escape what follows.
pub open spec fn ends_open(markdown: Seq<char>) -> bool
    decreases markdown.len(),
{
    if markdown.len() == 0 {
        false
    } else if markdown[0] == '\\' {
        markdown.len() == 1 || ends_open(markdown.skip(2))
    } else {
        ends_open(markdown.skip(1))
    }
}

pub(crate) broadcast proof fn lemma_bare_bars_joined(a: Seq<char>, b: Seq<char>)
    requires
        !ends_open(a),
    ensures
        #[trigger] bare_bars(a + b) == bare_bars(a) + bare_bars(b),
    decreases a.len(),
{
    if a.len() == 0 {
        assert(a + b =~= b);
    } else if a[0] == '\\' {
        assert((a + b).skip(2) =~= a.skip(2) + b);
        lemma_bare_bars_joined(a.skip(2), b);
    } else {
        assert((a + b).skip(1) =~= a.skip(1) + b);
        lemma_bare_bars_joined(a.skip(1), b);
    }
}

pub(crate) broadcast proof fn lemma_ends_open_joined(a: Seq<char>, b: Seq<char>)
    requires
        !ends_open(a),
    ensures
        #[trigger] ends_open(a + b) == ends_open(b),
    decreases a.len(),
{
    if a.len() == 0 {
        assert(a + b =~= b);
    } else if a[0] == '\\' {
        assert((a + b).skip(2) =~= a.skip(2) + b);
        lemma_ends_open_joined(a.skip(2), b);
    } else {
        assert((a + b).skip(1) =~= a.skip(1) + b);
        lemma_ends_open_joined(a.skip(1), b);
    }
}

/// Without backslashes every bar separates cells.
pub(crate) proof fn lemma_bars_without_backslash(markdown: Seq<char>)
    requires
        forall|i: int| 0 <= i < markdown.len() ==> markdown[i] != '\\',
    ensures
        bare_bars(markdown) == text::count(markdown, '|'),
        !ends_open(markdown),
    decreases markdown.len(),
{
    if markdown.len() > 0 {
        let head = seq![markdown[0]];
        let tail = markdown.skip(1);
        lemma_bars_without_backslash(tail);
        assert(markdown =~= head + tail);
        text::lemma_count_joined(head, tail, '|');
        reveal_with_fuel(text::count_before, 2);
    }
}

/// A cell adds neither a line nor a cell to its table.
pub proof fn law_cells_add_no_line_and_no_column(value: Seq<char>)
    ensures
        text::count(cell_text(value), '\n') == 0,
        bare_bars(cell_text(value)) == 0,
        !ends_open(cell_text(value)),
    decreases value.len(),
{
    if value.len() > 0 {
        let c = value[0];
        let head = cell_char(c);
        let rest = value.drop_first();
        let tail = cell_text(rest);
        let cell = head + tail;
        law_cells_add_no_line_and_no_column(rest);
        text::lemma_count_joined(head, tail, '\n');
        text::lemma_count_absent(head, '\n');
        assert(cell.skip(head.len() as int) =~= tail);
        assert(cell[0] == head[0]);
    }
}

/// `c` and what follows it, where that can be read.
pub open spec fn with_first(c: char, rest: Option<Seq<char>>) -> Option<Seq<char>> {
    match rest {
        Some(r) => Some(seq![c] + r),
        None => None,
    }
}

/// What a strict reader of XML makes of `xml`: an ampersand begins one of the five entities, and
/// tag brackets and quotation marks occur as entities only.
pub open spec fn xml_value(xml: Seq<char>) -> Option<Seq<char>>
    decreases xml.len(),
{
    if xml.len() == 0 {
        Some(seq![])
    } else if xml[0] == '<' || xml[0] == '>' || xml[0] == '"' || xml[0] == '\'' {
        None
    } else if xml[0] != '&' {
        with_first(xml[0], xml_value(xml.skip(1)))
    } else if xml.len() >= 5 && xml.take(5) == "&amp;"@ {
        with_first('&', xml_value(xml.skip(5)))
    } else if xml.len() >= 4 && xml.take(4) == "&lt;"@ {
        with_first('<', xml_value(xml.skip(4)))
    } else if xml.len() >= 4 && xml.take(4) == "&gt;"@ {
        with_first('>', xml_value(xml.skip(4)))
    } else if xml.len() >= 6 && xml.take(6) == "&quot;"@ {
        with_first('"', xml_value(xml.skip(6)))
    } else if xml.len() >= 6 && xml.take(6) == "&apos;"@ {
        with_first('\'', xml_value(xml.skip(6)))
    } else {
        None
    }
}

/// A strict reader of XML accepts escaped text and gets back the very text that was escaped.
pub proof fn law_xml_reads_back_strictly(value: Seq<char>)
    ensures
        xml_value(xml_text(value)) == Some(value),
    decreases value.len(),
{
    if value.len() == 0 {
        assert(value =~= seq![]);
    } else {
        lemma_entities();
        let c = value[0];
        let head = xml_char(c);
        let tail = xml_text(value.drop_first());
        let xml = head + tail;
        law_xml_reads_back_strictly(value.drop_first());
        assert(xml[0] == head[0]);
        assert(xml.skip(head.len() as int) =~= tail);
        assert(xml.take(head.len() as int) =~= head);
        if head.len() > 1 {
            assert(xml.len() >= 4 ==> xml.take(4)[1] == head[1]);
            assert(xml.len() >= 5 ==> xml.take(5)[1] == head[1] && xml.take(5)[2] == head[2]);
            assert(xml.len() >= 6 ==> xml.take(6)[1] == head[1] && xml.take(6)[2] == head[2]);
        }
        assert(seq![c] + value.drop_first() =~= value);
    }
}

/// What a strict reader of a table makes of `cell`: a backslash escapes a backslash or a bar, and
/// no bar and no line break stands bare.
pub open spec fn cell_value(cell: Seq<char>) -> Option<Seq<char>>
    decreases cell.len(),
{
    if cell.len() == 0 {
        Some(seq![])
    } else if cell[0] == '|' || cell[0] == '\n' || cell[0] == '\r' {
        None
    } else if cell[0] != '\\' {
        with_first(cell[0], cell_value(cell.skip(1)))
    } else if cell.len() >= 2 && (cell[1] == '\\' || cell[1] == '|') {
        with_first(cell[1], cell_value(cell.skip(2)))
    } else {
        None
    }
}

/// Whether `shown` is `value` on one line: the same characters, but a space for each line feed
/// and carriage return.
pub open spec fn is_on_one_line(shown: Seq<char>, value: Seq<char>) -> bool {
    &&& shown.len() == value.len()
    &&& forall|i: int|
        0 <= i < value.len() ==> #[trigger] shown[i] == (if value[i] == '\n' || value[i] == '\r' {
            ' '
        } else {
            value[i]
        })
}

/// Whether a strict reader of a table gets `value`, on one line, out of `cell`.
pub open spec fn cell_shows(cell: Seq<char>, value: Seq<char>) -> bool {
    cell_value(cell) matches Some(shown) && is_on_one_line(shown, value)
}

/// A strict reader of a table accepts every cell and gets back its value on one line.
pub proof fn law_cells_read_back_strictly(value: Seq<char>)
    ensures
        cell_shows(cell_text(value), value),
    decreases value.len(),
{
    if value.len() > 0 {
        let head = cell_char(value[0]);
        let rest = value.drop_first();
        let tail = cell_text(rest);
        let cell = head + tail;
        law_cells_read_back_strictly(rest);
        assert(cell.skip(head.len() as int) =~= tail);
        assert(cell[0] == head[0]);
        assert(head.len() == 2 ==> cell[1] == head[1]);
        let shown = cell_value(cell)->0;
        assert forall|i: int| 0 < i < value.len() implies #[trigger] shown[i] == cell_value(
            tail,
        )->0[i - 1] && value[i] == rest[i - 1] by {}
    }
}

/// A text without backslashes, bars and line breaks is its own cell.
pub proof fn law_plain_cells_are_kept(value: Seq<char>)
    requires
        forall|i: int|
            0 <= i < value.len() ==> #[trigger] value[i] != '\\' && value[i] != '|' && value[i]
                != '\n' && value[i] != '\r',
    ensures
        cell_text(value) == value,
    decreases value.len(),
{
    if value.len() == 0 {
        assert(cell_text(value) =~= value);
    } else {
        assert(value.drop_first() =~= value.skip(1));
        law_plain_cells_are_kept(value.drop_first());
        assert(cell_text(value) =~= value);
    }
}

/// `row` split at the bars that no backslash escapes.
pub open spec fn between_bars(row: Seq<char>) -> Seq<Seq<char>>
    decreases row.len(),
{
    if row.len() == 0 {
        seq![seq![]]
    } else if row[0] == '|' {
        seq![seq![]] + between_bars(row.skip(1))
    } else {
        let step: int = if row[0] == '\\' && row.len() >= 2 {
            2
        } else {
            1
        };
        let rest = between_bars(row.skip(step));
        seq![row.take(step) + rest[0]] + rest.drop_first()
    }
}

/// What stands before the first bar is one piece.
pub(crate) proof fn lemma_first_piece(piece: Seq<char>, rest: Seq<char>)
    requires
        bare_bars(piece) == 0,
        !ends_open(piece),
    ensures
        between_bars(piece + seq!['|'] + rest) == seq![piece] + between_bars(rest),
    decreases piece.len(),
{
    let row = piece + seq!['|'] + rest;
    if piece.len() == 0 {
        assert(piece =~= seq![]);
        assert(row.skip(1) =~= rest);
    } else {
        let step: int = if piece[0] == '\\' {
            2
        } else {
            1
        };
        let shorter = piece.skip(step);
        lemma_first_piece(shorter, rest);
        assert(row.skip(step) =~= shorter + seq!['|'] + rest);
        assert(row.take(step) + shorter =~= piece);
        let tail = between_bars(row.skip(step));
        assert(tail[0] == shorter);
        assert(tail.drop_first() =~= between_bars(rest));
    }
}

/// Without bars there is one piece.
pub(crate) proof fn lemma_last_piece(piece: Seq<char>)
    requires
        bare_bars(piece) == 0,
        !ends_open(piece),
    ensures
        between_bars(piece) == seq![piece],
    decreases piece.len(),
{
    if piece.len() == 0 {
        assert(piece =~= seq![]);
    } else {
        let step: int = if piece[0] == '\\' {
            2
        } else {
            1
        };
        lemma_last_piece(piece.skip(step));
        assert(piece.take(step) + piece.skip(step) =~= piece);
        assert(between_bars(piece) =~= seq![piece]);
    }
}

} // verus!
