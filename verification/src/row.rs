//! The fixed-width row codec: a record of id, username and email, and the
//! 291-byte layout it is encoded into.
//!
//! Layout: the id as 4 little-endian bytes at offset 0, the 32 username
//! bytes at offset 4, the 255 email bytes at offset 36. The username and
//! email fields are right-padded with zero bytes; the first zero byte is the
//! end-of-text sentinel when the field is rendered.

use vstd::bytes::{
    lemma_auto_spec_u32_to_from_le_bytes, spec_u32_from_le_bytes, spec_u32_to_le_bytes,
    u32_from_le_bytes, u32_to_le_bytes,
};
use vstd::prelude::*;
use vstd::slice::{slice_subrange, slice_to_vec};
use vstd::string::{StringExecFns, StringSliceAdditionalSpecFns};

use crate::error::DbError;
use crate::text::{
    dec_chars, field_text, pad_chars, pad_right, parse_u32, spec_parse_u32, text_of, u32_dec,
};
use crate::util::{append_bytes, pad_field, pad_zero, zeros};

verus! {

/// Width of the id field in bytes.
pub const ID_SIZE: usize = 4;

/// Capacity of the username field in bytes.
pub const USERNAME_SIZE: usize = 32;

/// Capacity of the email field in bytes.
pub const EMAIL_SIZE: usize = 255;

/// Offset of the id field in an encoded row.
pub const ID_OFFSET: usize = 0;

/// Offset of the username field in an encoded row.
pub const USERNAME_OFFSET: usize = ID_OFFSET + ID_SIZE;

/// Offset of the email field in an encoded row.
pub const EMAIL_OFFSET: usize = USERNAME_OFFSET + USERNAME_SIZE;

/// Width of one encoded row: 4 + 32 + 255 = 291 bytes.
pub const ROW_SIZE: usize = ID_SIZE + USERNAME_SIZE + EMAIL_SIZE;

/// The mathematical value of a row: its id and the two byte windows at
/// their full fixed width.
pub ghost struct RowV {
    pub id: u32,
    pub username: Seq<u8>,
    pub email: Seq<u8>,
}

impl RowV {
    /// Both text fields are at their full fixed width.
    pub open spec fn wf(self) -> bool {
        &&& self.username.len() == USERNAME_SIZE
        &&& self.email.len() == EMAIL_SIZE
    }
}

/// The encoded form of a row value: id bytes, then the two padded fields.
pub open spec fn spec_encode(r: RowV) -> Seq<u8> {
    spec_u32_to_le_bytes(r.id) + r.username + r.email
}

/// The row value read back from the first `ROW_SIZE` bytes of a buffer.
pub open spec fn spec_decode(b: Seq<u8>) -> RowV
    recommends
        b.len() >= ROW_SIZE,
{
    RowV {
        id: spec_u32_from_le_bytes(b.subrange(ID_OFFSET as int, USERNAME_OFFSET as int)),
        username: b.subrange(USERNAME_OFFSET as int, EMAIL_OFFSET as int),
        email: b.subrange(EMAIL_OFFSET as int, ROW_SIZE as int),
    }
}

/// One record: an id and two zero-padded text fields, always held at their
/// full fixed width.
#[derive(Debug)]
pub struct Row {
    pub id: u32,
    pub username: Vec<u8>,
    pub email: Vec<u8>,
}

impl View for Row {
    type V = RowV;

    open spec fn view(&self) -> RowV {
        RowV { id: self.id, username: self.username@, email: self.email@ }
    }
}

impl Row {
    /// The field vectors are at their full fixed width.
    pub open spec fn wf(self) -> bool {
        self@.wf()
    }

    /// An all-zero row: id 0 and both fields entirely zero bytes.
    pub fn empty() -> (r: Row)
        ensures
            r@ == (RowV { id: 0, username: zeros(USERNAME_SIZE as int), email: zeros(
                EMAIL_SIZE as int,
            ) }),
            r.wf(),
    {
        let mut username: Vec<u8> = Vec::new();
        pad_zero(&mut username, USERNAME_SIZE);
        let mut email: Vec<u8> = Vec::new();
        pad_zero(&mut email, EMAIL_SIZE);
        proof {
            assert(pad_field(Seq::<u8>::empty(), USERNAME_SIZE as int) =~= zeros(
                USERNAME_SIZE as int,
            ));
            assert(pad_field(Seq::<u8>::empty(), EMAIL_SIZE as int) =~= zeros(EMAIL_SIZE as int));
        }
        Row { id: 0, username, email }
    }

    /// Builds a row from an already-validated id and raw field bytes,
    /// right-padding each field with zero bytes to its capacity.
    pub fn from_parts(id: u32, username: &[u8], email: &[u8]) -> (r: Row)
        requires
            username@.len() <= USERNAME_SIZE,
            email@.len() <= EMAIL_SIZE,
        ensures
            r@ == (RowV { id, username: pad_field(username@, USERNAME_SIZE as int), email:
                pad_field(email@, EMAIL_SIZE as int) }),
            r.wf(),
    {
        let mut u = slice_to_vec(username);
        pad_zero(&mut u, USERNAME_SIZE);
        let mut e = slice_to_vec(email);
        pad_zero(&mut e, EMAIL_SIZE);
        Row { id, username: u, email: e }
    }

    /// Constructs a row from the three caller-supplied text fields.
    ///
    /// Fails with `FieldTooLong` when the username is over 32 bytes or the
    /// email over 255 bytes (username checked first), with `InvalidId` when
    /// the id token is not a decimal unsigned 32-bit integer; otherwise
    /// returns the row with both fields zero-padded to capacity.
    pub fn new(id: &str, username: &str, email: &str) -> (r: Result<Row, DbError>)
        ensures
            ({
                let ub = username.spec_bytes();
                let eb = email.spec_bytes();
                if ub.len() > USERNAME_SIZE || eb.len() > EMAIL_SIZE {
                    r == Err::<Row, DbError>(DbError::FieldTooLong)
                } else if spec_parse_u32(id.spec_bytes()) is None {
                    r == Err::<Row, DbError>(DbError::InvalidId)
                } else {
                    &&& r is Ok
                    &&& r->Ok_0@ == (RowV {
                        id: spec_parse_u32(id.spec_bytes())->Some_0,
                        username: pad_field(ub, USERNAME_SIZE as int),
                        email: pad_field(eb, EMAIL_SIZE as int),
                    })
                    &&& r->Ok_0.wf()
                }
            }),
    {
        let username_bytes = username.as_bytes();
        if username_bytes.len() > USERNAME_SIZE {
            return Err(DbError::FieldTooLong);
        }
        let email_bytes = email.as_bytes();
        if email_bytes.len() > EMAIL_SIZE {
            return Err(DbError::FieldTooLong);
        }
        let id_value = match parse_u32(id.as_bytes()) {
            Some(v) => v,
            None => {
                return Err(DbError::InvalidId);
            },
        };
        Ok(Self::from_parts(id_value, username_bytes, email_bytes))
    }

    /// The record's id.
    pub fn id(&self) -> (r: u32)
        ensures
            r == self@.id,
    {
        self.id
    }

    /// The username's display text: its bytes up to the first zero byte,
    /// each read as one character.
    pub fn username(&self) -> (s: String)
        ensures
            s@ == text_of(self@.username),
    {
        field_text(self.username.as_slice())
    }

    /// The email's display text: its bytes up to the first zero byte, each
    /// read as one character.
    pub fn email(&self) -> (s: String)
        ensures
            s@ == text_of(self@.email),
    {
        field_text(self.email.as_slice())
    }

    /// Serializes the row into its fixed 291-byte layout.
    pub fn encode(&self) -> (out: Vec<u8>)
        requires
            self.wf(),
        ensures
            out@ == spec_encode(self@),
            out@.len() == ROW_SIZE,
    {
        proof {
            lemma_auto_spec_u32_to_from_le_bytes();
        }
        let mut out = u32_to_le_bytes(self.id);
        append_bytes(&mut out, self.username.as_slice());
        append_bytes(&mut out, self.email.as_slice());
        proof {
            assert(out@ == spec_encode(self@));
        }
        out
    }

    /// Deserializes a row from the first 291 bytes of `bytes`.
    ///
    /// Fails with `DecodeError` exactly when the buffer is shorter than one
    /// encoded row; any bytes past the first 291 are ignored.
    pub fn decode(bytes: &[u8]) -> (r: Result<Row, DbError>)
        ensures
            bytes@.len() < ROW_SIZE ==> r == Err::<Row, DbError>(DbError::DecodeError),
            bytes@.len() >= ROW_SIZE ==> {
                &&& r is Ok
                &&& r->Ok_0@ == spec_decode(bytes@)
                &&& r->Ok_0.wf()
            },
    {
        if bytes.len() < ROW_SIZE {
            return Err(DbError::DecodeError);
        }
        let id_bytes = slice_subrange(bytes, ID_OFFSET, USERNAME_OFFSET);
        let id = u32_from_le_bytes(id_bytes);
        let username = slice_to_vec(slice_subrange(bytes, USERNAME_OFFSET, EMAIL_OFFSET));
        let email = slice_to_vec(slice_subrange(bytes, EMAIL_OFFSET, ROW_SIZE));
        Ok(Row { id, username, email })
    }
}

impl Clone for Row {
    /// The copy holds the same id and the same field bytes.
    fn clone(&self) -> (r: Self)
        ensures
            r@ == self@,
    {
        Row {
            id: self.id,
            username: slice_to_vec(self.username.as_slice()),
            email: slice_to_vec(self.email.as_slice()),
        }
    }
}

/// The header line rendered by a select: the three column names, each
/// left-aligned in its fixed display width.
pub open spec fn header_chars() -> Seq<char> {
    "| "@ + pad_chars("id"@, 6) + " | "@ + pad_chars("username"@, 15) + " | "@ + pad_chars(
        "email"@,
        20,
    ) + " |"@
}

/// One rendered row: id in decimal, then the two display texts, each
/// left-aligned in its fixed display width.
pub open spec fn render_row_chars(r: RowV) -> Seq<char> {
    "| "@ + pad_chars(dec_chars(r.id as nat), 6) + " | "@ + pad_chars(text_of(r.username), 15)
        + " | "@ + pad_chars(text_of(r.email), 20) + " |"@
}

impl Row {
    /// Renders the header line shown before the rows of a select.
    pub fn render_header() -> (s: String)
        ensures
            s@ == header_chars(),
    {
        let mut s = String::from_str("| ");
        let mut c1 = String::from_str("id");
        pad_right(&mut c1, 6);
        s.append(c1.as_str());
        s.append(" | ");
        let mut c2 = String::from_str("username");
        pad_right(&mut c2, 15);
        s.append(c2.as_str());
        s.append(" | ");
        let mut c3 = String::from_str("email");
        pad_right(&mut c3, 20);
        s.append(c3.as_str());
        s.append(" |");
        s
    }

    /// Renders this row as one display line: id, username, email.
    pub fn render(&self) -> (s: String)
        ensures
            s@ == render_row_chars(self@),
    {
        let mut s = String::from_str("| ");
        let mut c1 = u32_dec(self.id);
        pad_right(&mut c1, 6);
        s.append(c1.as_str());
        s.append(" | ");
        let mut c2 = self.username();
        pad_right(&mut c2, 15);
        s.append(c2.as_str());
        s.append(" | ");
        let mut c3 = self.email();
        pad_right(&mut c3, 20);
        s.append(c3.as_str());
        s.append(" |");
        s
    }
}

/// Law: decoding an encoded row gives the row back — the id is equal and
/// both byte windows are equal, for every well-formed row value.
pub proof fn lemma_encode_decode_roundtrip(r: RowV)
    requires
        r.wf(),
    ensures
        spec_decode(spec_encode(r)) == r,
{
    lemma_auto_spec_u32_to_from_le_bytes();
    let b = spec_encode(r);
    assert(b.subrange(ID_OFFSET as int, USERNAME_OFFSET as int) =~= spec_u32_to_le_bytes(r.id));
    assert(b.subrange(USERNAME_OFFSET as int, EMAIL_OFFSET as int) =~= r.username);
    assert(b.subrange(EMAIL_OFFSET as int, ROW_SIZE as int) =~= r.email);
}

/// Law: every encoded row is exactly 291 bytes wide.
pub proof fn lemma_encode_width(r: RowV)
    requires
        r.wf(),
    ensures
        spec_encode(r).len() == ROW_SIZE,
{
    lemma_auto_spec_u32_to_from_le_bytes();
}

} // verus!
