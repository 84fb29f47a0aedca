//! Comma-separated rows, escaped as RFC 4180 has it.

use vstd::prelude::*;
use vstd::string::*;
use vstd::utf8::*;

verus! {

/// Whether a byte makes a field need quotes: a comma, a double quote, a carriage return or a
/// line feed.
pub open spec fn is_special(byte: u8) -> bool {
    byte == 0x2c || byte == 0x22 || byte == 0x0d || byte == 0x0a
}

/// Whether a field needs quotes.
pub open spec fn needs_quotes(field: Seq<u8>) -> bool {
    exists|i: int| 0 <= i < field.len() && is_special(#[trigger] field[i])
}

/// A field with every double quote in it doubled.
pub open spec fn doubled(field: Seq<u8>) -> Seq<u8>
    decreases field.len(),
{
    if field.len() == 0 {
        Seq::empty()
    } else if field[0] == 0x22 {
        seq![0x22u8, 0x22u8] + doubled(field.skip(1))
    } else {
        seq![field[0]] + doubled(field.skip(1))
    }
}

/// A field as it is written.
pub open spec fn csv_field(field: Seq<u8>) -> Seq<u8> {
    if needs_quotes(field) {
        seq![0x22u8] + doubled(field) + seq![0x22u8]
    } else {
        field
    }
}

/// Fields as they are written, a comma between each and the next.
pub open spec fn joined(fields: Seq<Seq<u8>>) -> Seq<u8>
    decreases fields.len(),
{
    if fields.len() == 0 {
        Seq::empty()
    } else if fields.len() == 1 {
        csv_field(fields[0])
    } else {
        joined(fields.drop_last()) + seq![0x2cu8] + csv_field(fields.last())
    }
}

/// A row of fields as it is written, with its line feed.
pub open spec fn row_of(fields: Seq<Seq<u8>>) -> Seq<u8> {
    joined(fields) + seq![0x0au8]
}

/// The fields of a row, as bytes.
pub open spec fn encoded(fields: Seq<String>) -> Seq<Seq<u8>> {
    fields.map_values(|field: String| encode_utf8(field@))
}

/// What a reader that honours RFC 4180 makes of bytes, up to the end of the first row: whether
/// it is inside quotes, the field it is in the middle of, and the fields behind it.
pub open spec fn read_row(bytes: Seq<u8>, quoted: bool, field: Seq<u8>, fields: Seq<Seq<u8>>) -> Seq<
    Seq<u8>,
>
    decreases bytes.len(),
{
    if bytes.len() == 0 {
        fields.push(field)
    } else if quoted {
        if bytes[0] == 0x22 {
            if bytes.len() > 1 && bytes[1] == 0x22 {
                read_row(bytes.skip(2), true, field.push(0x22), fields)
            } else {
                read_row(bytes.skip(1), false, field, fields)
            }
        } else {
            read_row(bytes.skip(1), true, field.push(bytes[0]), fields)
        }
    } else if bytes[0] == 0x22 {
        read_row(bytes.skip(1), true, field, fields)
    } else if bytes[0] == 0x2c {
        read_row(bytes.skip(1), false, Seq::empty(), fields.push(field))
    } else if bytes[0] == 0x0a {
        fields.push(field)
    } else if bytes[0] == 0x0d {
        read_row(bytes.skip(1), false, field, fields)
    } else {
        read_row(bytes.skip(1), false, field.push(bytes[0]), fields)
    }
}

/// Appends bytes.
pub fn push_bytes(out: &mut Vec<u8>, bytes: &[u8])
    ensures
        final(out)@ == old(out)@ + bytes@,
{
    out.extend_from_slice(bytes);
    assert(out@ =~= old(out)@ + bytes@);
}

proof fn lemma_doubled_concat(a: Seq<u8>, b: Seq<u8>)
    ensures
        doubled(a + b) == doubled(a) + doubled(b),
    decreases a.len(),
{
    if a.len() == 0 {
        assert(a + b =~= b);
        assert(doubled(a) + doubled(b) =~= doubled(b));
    } else {
        assert((a + b).skip(1) =~= a.skip(1) + b);
        lemma_doubled_concat(a.skip(1), b);
        assert(doubled(a + b) =~= doubled(a) + doubled(b));
    }
}

/// Writes one CSV field, quoting it if it needs quoting.
///
/// A field containing a comma, a double quote, a carriage return or a line feed is enclosed in
/// double quotes and every quote inside it is doubled; anything else is written as it is,
/// spaces included.
pub fn write_field(out: &mut Vec<u8>, field: &str)
    ensures
        final(out)@ == old(out)@ + csv_field(encode_utf8(field@)),
{
    let bytes: &[u8] = field.as_bytes();
    let ghost before = out@;
    let mut special = false;
    let mut index: usize = 0;
    while index < bytes.len()
        invariant
            index <= bytes@.len(),
            special == exists|i: int| 0 <= i < index && is_special(#[trigger] bytes@[i]),
        decreases bytes@.len() - index,
    {
        let byte: u8 = bytes[index];
        if byte == 0x2c || byte == 0x22 || byte == 0x0d || byte == 0x0a {
            special = true;
            assert(is_special(bytes@[index as int]));
        }
        index = index + 1;
    }
    assert(special == needs_quotes(bytes@));
    if !special {
        push_bytes(out, bytes);
        return;
    }
    out.push(0x22);
    let mut at: usize = 0;
    assert(out@ =~= before + seq![0x22u8] + doubled(bytes@.take(0)));
    while at < bytes.len()
        invariant
            at <= bytes@.len(),
            out@ == before + seq![0x22u8] + doubled(bytes@.take(at as int)),
        decreases bytes@.len() - at,
    {
        let byte: u8 = bytes[at];
        if byte == 0x22 {
            out.push(0x22);
        }
        out.push(byte);
        proof {
            reveal_with_fuel(doubled, 2);
            let one = seq![byte];
            lemma_doubled_concat(bytes@.take(at as int), one);
            assert(bytes@.take(at + 1) =~= bytes@.take(at as int) + one);
            assert(one.skip(1) =~= Seq::<u8>::empty());
            assert(doubled(one) =~= if byte == 0x22 {
                seq![0x22u8, 0x22u8]
            } else {
                seq![byte]
            });
            assert(out@ =~= before + seq![0x22u8] + doubled(bytes@.take(at + 1)));
        }
        at = at + 1;
    }
    out.push(0x22);
    assert(bytes@.take(at as int) =~= bytes@);
    assert(out@ =~= before + csv_field(bytes@));
}

/// Writes one row: the fields with a comma between them, and a line feed.
pub fn write_row(out: &mut Vec<u8>, fields: &Vec<String>)
    ensures
        final(out)@ == old(out)@ + row_of(encoded(fields@)),
{
    let ghost before = out@;
    let ghost all = encoded(fields@);
    let mut index: usize = 0;
    assert(out@ =~= before + joined(all.take(0)));
    while index < fields.len()
        invariant
            index <= fields@.len(),
            all == encoded(fields@),
            out@ == before + joined(all.take(index as int)),
        decreases fields@.len() - index,
    {
        if index > 0 {
            out.push(0x2c);
        }
        write_field(out, fields[index].as_str());
        proof {
            let next = all.take(index + 1);
            assert(next.last() == encode_utf8(fields@[index as int]@));
            assert(next.drop_last() =~= all.take(index as int));
            assert(out@ =~= before + joined(next));
        }
        index = index + 1;
    }
    out.push(0x0a);
    assert(all.take(index as int) =~= all);
    assert(out@ =~= before + row_of(all));
}

/// A field that needs no quotes reads as itself.
proof fn lemma_read_plain(field: Seq<u8>, rest: Seq<u8>, read: Seq<u8>, fields: Seq<Seq<u8>>)
    requires
        !needs_quotes(field),
    ensures
        read_row(field + rest, false, read, fields) == read_row(rest, false, read + field, fields),
    decreases field.len(),
{
    if field.len() == 0 {
        assert(field + rest =~= rest);
        assert(read + field =~= read);
    } else {
        let tail = field.skip(1);
        assert(!is_special(field[0]));
        assert(!needs_quotes(tail)) by {
            if needs_quotes(tail) {
                let i = choose|i: int| 0 <= i < tail.len() && is_special(#[trigger] tail[i]);
                assert(is_special(field[i + 1]));
            }
        }
        assert((field + rest).skip(1) =~= tail + rest);
        assert(read.push(field[0]) + tail =~= read + field);
        lemma_read_plain(tail, rest, read.push(field[0]), fields);
    }
}

/// A quoted field reads as what was quoted.
proof fn lemma_read_quoted(field: Seq<u8>, rest: Seq<u8>, read: Seq<u8>, fields: Seq<Seq<u8>>)
    requires
        rest.len() > 0,
        rest[0] != 0x22,
    ensures
        read_row(doubled(field) + seq![0x22u8] + rest, true, read, fields) == read_row(
            rest,
            false,
            read + field,
            fields,
        ),
    decreases field.len(),
{
    let bytes = doubled(field) + seq![0x22u8] + rest;
    if field.len() == 0 {
        assert(bytes =~= seq![0x22u8] + rest);
        assert(bytes.skip(1) =~= rest);
        assert(read + field =~= read);
        assert(bytes[1] == rest[0]);
    } else {
        let tail = field.skip(1);
        let next = doubled(tail) + seq![0x22u8] + rest;
        assert(read.push(field[0]) + tail =~= read + field);
        if field[0] == 0x22 {
            assert(bytes[0] == 0x22 && bytes[1] == 0x22);
            assert(bytes.skip(2) =~= next);
        } else {
            assert(bytes[0] == field[0]);
            assert(bytes.skip(1) =~= next);
        }
        lemma_read_quoted(tail, rest, read.push(field[0]), fields);
    }
}

proof fn lemma_read_field(field: Seq<u8>, rest: Seq<u8>, fields: Seq<Seq<u8>>)
    requires
        rest.len() > 0,
        rest[0] != 0x22,
    ensures
        read_row(csv_field(field) + rest, false, Seq::empty(), fields) == read_row(
            rest,
            false,
            field,
            fields,
        ),
{
    assert(Seq::<u8>::empty() + field =~= field);
    if needs_quotes(field) {
        let bytes = csv_field(field) + rest;
        assert(bytes[0] == 0x22);
        assert(bytes.skip(1) =~= doubled(field) + seq![0x22u8] + rest);
        lemma_read_quoted(field, rest, Seq::empty(), fields);
    } else {
        lemma_read_plain(field, rest, Seq::empty(), fields);
    }
}

proof fn lemma_read_joined(fields: Seq<Seq<u8>>, rest: Seq<u8>)
    requires
        fields.len() > 0,
        rest.len() > 0,
        rest[0] != 0x22,
    ensures
        read_row(joined(fields) + rest, false, Seq::empty(), Seq::empty()) == read_row(
            rest,
            false,
            fields.last(),
            fields.drop_last(),
        ),
    decreases fields.len(),
{
    if fields.len() == 1 {
        assert(fields.drop_last() =~= Seq::<Seq<u8>>::empty());
        lemma_read_field(fields[0], rest, Seq::empty());
    } else {
        let init = fields.drop_last();
        let tail = csv_field(fields.last()) + rest;
        let comma = seq![0x2cu8] + tail;
        assert(joined(fields) + rest =~= joined(init) + comma);
        lemma_read_joined(init, comma);
        assert(comma.skip(1) =~= tail);
        assert(init.drop_last().push(init.last()) =~= init);
        lemma_read_field(fields.last(), rest, init);
    }
}

/// Whatever its fields hold, a row reads back as exactly the fields it was written from: no
/// comma, quote or line break inside a field shifts a column.
pub proof fn rows_read_back(fields: Seq<Seq<u8>>)
    requires
        fields.len() > 0,
    ensures
        read_row(row_of(fields), false, Seq::empty(), Seq::empty()) == fields,
{
    let feed = seq![0x0au8];
    lemma_read_joined(fields, feed);
    assert(fields.drop_last().push(fields.last()) =~= fields);
}

} // verus!
