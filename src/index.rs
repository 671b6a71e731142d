//! Reading the index service's response into records.
//!
//! The response is text: a header line, then one line per capture whose
//! fields are separated by commas and may be wrapped in double quotes. A
//! record is the list of a line's fields with every double quote removed.

use vstd::prelude::*;

verus! {

/// Relies on `String::push`: the character is added at the end of the string.
pub assume_specification[ String::push ](s: &mut String, ch: char)
    ensures
        final(s)@ == old(s)@.push(ch),
;

/// The pieces of `s` between the occurrences of `sep`, in order. There is
/// always at least one piece, and `k` separators give `k + 1` pieces.
pub open spec fn split_on(s: Seq<char>, sep: char) -> Seq<Seq<char>>
    decreases s.len(),
{
    if s.len() == 0 {
        seq![Seq::empty()]
    } else {
        let pieces = split_on(s.drop_last(), sep);
        if s.last() == sep {
            pieces.push(Seq::empty())
        } else {
            pieces.update(pieces.len() - 1, pieces.last().push(s.last()))
        }
    }
}

/// A line that ended in `"\r\n"` loses its carriage return.
pub open spec fn line_text(piece: Seq<char>) -> Seq<char> {
    if piece.len() > 0 && piece.last() == '\r' {
        piece.drop_last()
    } else {
        piece
    }
}

/// The lines of `s`: the text between line feeds, without a carriage return
/// that stood before a line feed. A final line feed ends the last line and
/// opens no empty one; the empty text has no lines.
pub open spec fn lines_of(s: Seq<char>) -> Seq<Seq<char>> {
    let pieces = split_on(s, '\n');
    let ended = pieces.drop_last().map_values(|p: Seq<char>| line_text(p));
    if pieces.last().len() == 0 {
        ended
    } else {
        ended.push(pieces.last())
    }
}

/// `s` without any double quote.
pub open spec fn unquoted(s: Seq<char>) -> Seq<char> {
    s.filter(|c: char| c != '"')
}

/// The fields of one line: the comma-separated pieces, each unquoted.
pub open spec fn fields_of(line: Seq<char>) -> Seq<Seq<char>> {
    split_on(line, ',').map_values(|f: Seq<char>| unquoted(f))
}

/// The records of an index response: one for each line after the header,
/// in order. A response of fewer than two lines holds none.
pub open spec fn records_of(body: Seq<char>) -> Seq<Seq<Seq<char>>> {
    let lines = lines_of(body);
    if lines.len() < 2 {
        Seq::empty()
    } else {
        lines.drop_first().map_values(|l: Seq<char>| fields_of(l))
    }
}

pub proof fn lemma_split_on_nonempty(s: Seq<char>, sep: char)
    ensures
        split_on(s, sep).len() >= 1,
    decreases s.len(),
{
    if s.len() > 0 {
        lemma_split_on_nonempty(s.drop_last(), sep);
    }
}

proof fn lemma_split_on_push(s: Seq<char>, c: char, sep: char)
    ensures
        split_on(s, sep).len() >= 1,
        c == sep ==> split_on(s.push(c), sep) == split_on(s, sep).push(Seq::empty()),
        c != sep ==> split_on(s.push(c), sep) == split_on(s, sep).update(
            split_on(s, sep).len() - 1,
            split_on(s, sep).last().push(c),
        ),
{
    lemma_split_on_nonempty(s, sep);
    assert(s.push(c).drop_last() =~= s);
}

/// The empty response has no line.
pub proof fn lemma_empty_body_has_no_lines()
    ensures
        lines_of(Seq::empty()).len() == 0,
{
    assert(split_on(Seq::<char>::empty(), '\n').drop_last() =~= Seq::<Seq<char>>::empty());
}

/// A response of a header and `n` further lines gives exactly `n` records.
/// The record of each data line holds that line's comma-separated pieces in
/// their order, each with its double quotes removed, so no field holds a
/// double quote.
pub proof fn lemma_records_follow_data_lines(body: Seq<char>)
    requires
        lines_of(body).len() >= 2,
    ensures
        records_of(body).len() == lines_of(body).len() - 1,
        forall|k: int|
            0 <= k < records_of(body).len() ==> #[trigger] records_of(body)[k] == fields_of(
                lines_of(body)[k + 1],
            ),
        forall|k: int|
            0 <= k < records_of(body).len() ==> #[trigger] records_of(body)[k].len() == split_on(
                lines_of(body)[k + 1],
                ',',
            ).len(),
        forall|k: int, j: int|
            0 <= k < records_of(body).len() && 0 <= j < records_of(body)[k].len()
                ==> #[trigger] records_of(body)[k][j] == unquoted(
                split_on(lines_of(body)[k + 1], ',')[j],
            ),
        forall|k: int, j: int|
            0 <= k < records_of(body).len() && 0 <= j < records_of(body)[k].len()
                ==> !(#[trigger] records_of(body)[k][j]).contains('"'),
{
    assert forall|k: int, j: int|
        0 <= k < records_of(body).len() && 0 <= j < records_of(body)[k].len() implies !(
    #[trigger] records_of(body)[k][j]).contains('"') by {
        let f = split_on(lines_of(body)[k + 1], ',')[j];
        let pred = |c: char| c != '"';
        let u = f.filter(pred);
        assert(records_of(body)[k][j] == u);
        if u.contains('"') {
            let i = choose|i: int| 0 <= i < u.len() && u[i] == '"';
            f.lemma_filter_pred(pred, i);
        }
    }
}

fn chars_of(s: &str) -> (r: Vec<char>)
    ensures
        r@ == s@,
{
    let mut r: Vec<char> = Vec::new();
    for c in it: s.chars()
        invariant
            it.seq() == s@,
            r@ == it.seq().take(it.index() as int),
    {
        assert(it.seq().take(it.index() + 1) =~= r@.push(c));
        r.push(c);
    }
    assert(r@ =~= s@);
    r
}

/// The contents of each vector of `v`, in order.
pub open spec fn char_views(v: Seq<Vec<char>>) -> Seq<Seq<char>> {
    v.map_values(|x: Vec<char>| x@)
}

fn split_lines(text: &Vec<char>) -> (r: Vec<Vec<char>>)
    ensures
        char_views(r@) == lines_of(text@),
{
    let mut lines: Vec<Vec<char>> = Vec::new();
    let mut cur: Vec<char> = Vec::new();
    let n = text.len();
    for i in 0..n
        invariant
            n == text@.len(),
            char_views(lines@) == split_on(text@.take(i as int), '\n').drop_last().map_values(
                |p: Seq<char>| line_text(p),
            ),
            cur@ == split_on(text@.take(i as int), '\n').last(),
    {
        let c = text[i];
        let ghost before = text@.take(i as int);
        assert(text@.take(i + 1) =~= before.push(c));
        proof {
            lemma_split_on_push(before, c, '\n');
        }
        if c == '\n' {
            let ghost pieces = split_on(before, '\n');
            let ghost dv = char_views(lines@);
            assert(pieces =~= pieces.drop_last().push(pieces.last()));
            assert(split_on(text@.take(i + 1), '\n').drop_last() =~= pieces);
            let ghost prev = cur@;
            if cur.len() > 0 && cur[cur.len() - 1] == '\r' {
                cur.pop();
            }
            assert(cur@ == line_text(prev));
            let done = cur;
            lines.push(done);
            cur = Vec::new();
            assert(char_views(lines@) =~= dv.push(line_text(pieces.last())));
            assert(char_views(lines@) =~= split_on(text@.take(i + 1), '\n').drop_last().map_values(
                |p: Seq<char>| line_text(p),
            ));
        } else {
            cur.push(c);
            assert(split_on(text@.take(i + 1), '\n').drop_last() =~= split_on(before, '\n').drop_last());
        }
    }
    assert(text@.take(n as int) =~= text@);
    if cur.len() > 0 {
        lines.push(cur);
        assert(char_views(lines@) =~= lines_of(text@));
    }
    lines
}

fn record_fields(line: &Vec<char>) -> (r: Vec<String>)
    ensures
        r.deep_view() == fields_of(line@),
{
    let mut fields: Vec<String> = Vec::new();
    let mut cur = String::new();
    let n = line.len();
    for i in 0..n
        invariant
            n == line@.len(),
            fields.deep_view() == split_on(line@.take(i as int), ',').drop_last().map_values(
                |f: Seq<char>| unquoted(f),
            ),
            cur@ == unquoted(split_on(line@.take(i as int), ',').last()),
    {
        let c = line[i];
        let ghost before = line@.take(i as int);
        assert(line@.take(i + 1) =~= before.push(c));
        proof {
            lemma_split_on_push(before, c, ',');
        }
        if c == ',' {
            let ghost dv = fields.deep_view();
            let ghost pieces = split_on(before, ',');
            assert(pieces =~= pieces.drop_last().push(pieces.last()));
            assert(split_on(line@.take(i + 1), ',').drop_last() =~= pieces);
            let done = cur;
            fields.push(done);
            assert(fields.deep_view() =~= dv.push(unquoted(pieces.last())));
            cur = String::new();
            assert(Seq::<char>::empty().filter(|c: char| c != '"') =~= Seq::<char>::empty()) by {
                reveal(Seq::filter);
            }
            assert(fields.deep_view() =~= split_on(line@.take(i + 1), ',').drop_last().map_values(
                |f: Seq<char>| unquoted(f),
            ));
        } else {
            let ghost last = split_on(before, ',').last();
            proof {
                last.lemma_filter_push(c, |c: char| c != '"');
            }
            if c != '"' {
                cur.push(c);
            }
            assert(split_on(line@.take(i + 1), ',').drop_last() =~= split_on(before, ',').drop_last());
        }
    }
    assert(line@.take(n as int) =~= line@);
    let ghost dv = fields.deep_view();
    let ghost pieces = split_on(line@, ',');
    proof {
        lemma_split_on_nonempty(line@, ',');
    }
    assert(pieces =~= pieces.drop_last().push(pieces.last()));
    let last = cur;
    fields.push(last);
    assert(fields.deep_view() =~= dv.push(unquoted(pieces.last())));
    assert(fields.deep_view() =~= fields_of(line@));
    fields
}

/// Reads an index response into its records: one for each line after the
/// header, in the order of the response, each the list of the line's
/// comma-separated fields with every double quote removed. A response of
/// fewer than two lines holds no record.
pub fn parse_index(body: &str) -> (r: Vec<Vec<String>>)
    ensures
        r.deep_view() == records_of(body@),
{
    let text = chars_of(body);
    let lines = split_lines(&text);
    let n = lines.len();
    let mut records: Vec<Vec<String>> = Vec::new();
    if n < 2 {
        assert(records.deep_view() =~= records_of(body@));
        return records;
    }
    assert(lines@.len() == lines_of(body@).len());
    for k in 1..n
        invariant
            n == lines@.len(),
            2 <= n,
            char_views(lines@) == lines_of(body@),
            records.deep_view() == lines_of(body@).subrange(1, k as int).map_values(
                |l: Seq<char>| fields_of(l),
            ),
    {
        let fields = record_fields(&lines[k]);
        assert(lines@[k as int]@ == lines_of(body@)[k as int]);
        let ghost dv = records.deep_view();
        let ghost fv = fields.deep_view();
        records.push(fields);
        assert(records.deep_view() =~= dv.push(fv));
        assert(lines_of(body@).subrange(1, k + 1) =~= lines_of(body@).subrange(1, k as int).push(
            lines_of(body@)[k as int],
        ));
        assert(records.deep_view() =~= lines_of(body@).subrange(1, k + 1).map_values(
            |l: Seq<char>| fields_of(l),
        ));
    }
    assert(lines_of(body@).subrange(1, n as int) =~= lines_of(body@).drop_first());
    records
}

} // verus!
