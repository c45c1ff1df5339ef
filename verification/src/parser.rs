use vstd::prelude::*;

verus! {

/// A vector field of a message definition: the type of its elements, and the type of the
/// length that precedes them on the wire, if any (a vector without one is a string).
#[derive(Debug)]
pub struct VectorType {
    pub size_type: Option<PayloadType>,
    pub data_type: PayloadType,
}

/// The type of a field in a message definition.
#[derive(Debug)]
pub enum PayloadType {
    BOOL,
    CHAR,
    U8,
    U16,
    U32,
    U64,
    I8,
    I16,
    I32,
    I64,
    F32,
    F64,
    VECTOR(Box<VectorType>),
}

/// The type part of a field of a JSON message definition: the `type` member and the
/// `vector/datatype` and `vector/sizetype` members where they are strings.
pub struct TypeDescription {
    pub typ: String,
    pub vector_datatype: Option<String>,
    pub vector_sizetype: Option<String>,
}

/// UTF-8 bytes of a string.
pub open spec fn utf8_of(chars: Seq<char>) -> Seq<u8> {
    vstd::utf8::encode_utf8(chars)
}

/// The scalar type that a definition file names, by the name's bytes.
pub open spec fn scalar_type_named(name: Seq<u8>) -> Option<PayloadType> {
    // "bool", "boolean"
    if name == seq![0x62u8, 0x6f, 0x6f, 0x6c] || name == seq![0x62u8, 0x6f, 0x6f, 0x6c, 0x65, 0x61, 0x6e] {
        Some(PayloadType::BOOL)
    // "char"
    } else if name == seq![0x63u8, 0x68, 0x61, 0x72] {
        Some(PayloadType::CHAR)
    // "u8", "uint8_t"
    } else if name == seq![0x75u8, 0x38] || name == seq![0x75u8, 0x69, 0x6e, 0x74, 0x38, 0x5f, 0x74] {
        Some(PayloadType::U8)
    // "u16", "uint16_t"
    } else if name == seq![0x75u8, 0x31, 0x36] || name == seq![0x75u8, 0x69, 0x6e, 0x74, 0x31, 0x36, 0x5f, 0x74] {
        Some(PayloadType::U16)
    // "u32", "uint32_t"
    } else if name == seq![0x75u8, 0x33, 0x32] || name == seq![0x75u8, 0x69, 0x6e, 0x74, 0x33, 0x32, 0x5f, 0x74] {
        Some(PayloadType::U32)
    // "u64", "uint64_t"
    } else if name == seq![0x75u8, 0x36, 0x34] || name == seq![0x75u8, 0x69, 0x6e, 0x74, 0x36, 0x34, 0x5f, 0x74] {
        Some(PayloadType::U64)
    // "i8", "int8_t"
    } else if name == seq![0x69u8, 0x38] || name == seq![0x69u8, 0x6e, 0x74, 0x38, 0x5f, 0x74] {
        Some(PayloadType::I8)
    // "i16", "int16_t"
    } else if name == seq![0x69u8, 0x31, 0x36] || name == seq![0x69u8, 0x6e, 0x74, 0x31, 0x36, 0x5f, 0x74] {
        Some(PayloadType::I16)
    // "i32", "int32_t"
    } else if name == seq![0x69u8, 0x33, 0x32] || name == seq![0x69u8, 0x6e, 0x74, 0x33, 0x32, 0x5f, 0x74] {
        Some(PayloadType::I32)
    // "i64", "int64_t"
    } else if name == seq![0x69u8, 0x36, 0x34] || name == seq![0x69u8, 0x6e, 0x74, 0x36, 0x34, 0x5f, 0x74] {
        Some(PayloadType::I64)
    // "float"
    } else if name == seq![0x66u8, 0x6c, 0x6f, 0x61, 0x74] {
        Some(PayloadType::F32)
    // "double"
    } else if name == seq![0x64u8, 0x6f, 0x75, 0x62, 0x6c, 0x65] {
        Some(PayloadType::F64)
    } else {
        None
    }
}

/// The bytes of the word "vector".
pub open spec fn vector_word() -> Seq<u8> {
    // "vector"
    seq![0x76u8, 0x65, 0x63, 0x74, 0x6f, 0x72]
}

/// `needle` occurs somewhere in `hay`.
pub open spec fn occurs_in(needle: Seq<u8>, hay: Seq<u8>) -> bool {
    exists|i: int| 0 <= i && i + needle.len() <= hay.len() && #[trigger] hay.subrange(i, i + needle.len()) == needle
}

/// The definition file's description of a field's type can be read: a vector names a known
/// element type and, if it has one, a known length type; any other type is a known
/// scalar type.
pub open spec fn is_readable_description(d: &TypeDescription) -> bool {
    if occurs_in(vector_word(), utf8_of(d.typ@)) {
        &&& d.vector_datatype matches Some(t) && scalar_type_named(utf8_of(t@)) is Some
        &&& d.vector_sizetype matches Some(t) ==> scalar_type_named(utf8_of(t@)) is Some
    } else {
        scalar_type_named(utf8_of(d.typ@)) is Some
    }
}

/// The type that a readable description describes.
pub open spec fn described_type(d: &TypeDescription) -> PayloadType {
    if occurs_in(vector_word(), utf8_of(d.typ@)) {
        PayloadType::VECTOR(
            Box::new(
                VectorType {
                    data_type: scalar_type_named(utf8_of(d.vector_datatype->0@))->0,
                    size_type: match d.vector_sizetype {
                        Some(t) => scalar_type_named(utf8_of(t@)),
                        None => None,
                    },
                },
            ),
        )
    } else {
        scalar_type_named(utf8_of(d.typ@))->0
    }
}

/// The UTF-8 bytes of ASCII characters are the characters' codes.
proof fn lemma_ascii_bytes(chars: Seq<char>)
    requires
        vstd::utf8::is_ascii_chars(chars),
    ensures
        utf8_of(chars) == Seq::new(chars.len(), |i: int| chars[i] as u8),
{
    vstd::utf8::is_ascii_chars_encode_utf8(chars);
    assert(utf8_of(chars) =~= Seq::new(chars.len(), |i: int| chars[i] as u8));
}

/// Type names of the definition files: `u8`/`uint8_t`, `u16`/`uint16_t`, `u32`/`uint32_t` and `u64`/`uint64_t` name the
/// unsigned integers of those widths.
pub proof fn law_type_names_of_unsigned_integers()
    ensures
        scalar_type_named(utf8_of("u8"@)) == Some(PayloadType::U8),
        scalar_type_named(utf8_of("uint8_t"@)) == Some(PayloadType::U8),
        scalar_type_named(utf8_of("u16"@)) == Some(PayloadType::U16),
        scalar_type_named(utf8_of("uint16_t"@)) == Some(PayloadType::U16),
        scalar_type_named(utf8_of("u32"@)) == Some(PayloadType::U32),
        scalar_type_named(utf8_of("uint32_t"@)) == Some(PayloadType::U32),
        scalar_type_named(utf8_of("u64"@)) == Some(PayloadType::U64),
        scalar_type_named(utf8_of("uint64_t"@)) == Some(PayloadType::U64),
{
    assert(scalar_type_named(utf8_of("u8"@)) == Some(PayloadType::U8)) by {
        reveal_strlit("u8");
        lemma_ascii_bytes("u8"@);
        assert(utf8_of("u8"@) =~= seq![0x75u8, 0x38]);
    }
    assert(scalar_type_named(utf8_of("uint8_t"@)) == Some(PayloadType::U8)) by {
        reveal_strlit("uint8_t");
        lemma_ascii_bytes("uint8_t"@);
        assert(utf8_of("uint8_t"@) =~= seq![0x75u8, 0x69, 0x6e, 0x74, 0x38, 0x5f, 0x74]);
    }
    assert(scalar_type_named(utf8_of("u16"@)) == Some(PayloadType::U16)) by {
        reveal_strlit("u16");
        lemma_ascii_bytes("u16"@);
        assert(utf8_of("u16"@) =~= seq![0x75u8, 0x31, 0x36]);
    }
    assert(scalar_type_named(utf8_of("uint16_t"@)) == Some(PayloadType::U16)) by {
        reveal_strlit("uint16_t");
        lemma_ascii_bytes("uint16_t"@);
        assert(utf8_of("uint16_t"@) =~= seq![0x75u8, 0x69, 0x6e, 0x74, 0x31, 0x36, 0x5f, 0x74]);
    }
    assert(scalar_type_named(utf8_of("u32"@)) == Some(PayloadType::U32)) by {
        reveal_strlit("u32");
        lemma_ascii_bytes("u32"@);
        assert(utf8_of("u32"@) =~= seq![0x75u8, 0x33, 0x32]);
    }
    assert(scalar_type_named(utf8_of("uint32_t"@)) == Some(PayloadType::U32)) by {
        reveal_strlit("uint32_t");
        lemma_ascii_bytes("uint32_t"@);
        assert(utf8_of("uint32_t"@) =~= seq![0x75u8, 0x69, 0x6e, 0x74, 0x33, 0x32, 0x5f, 0x74]);
    }
    assert(scalar_type_named(utf8_of("u64"@)) == Some(PayloadType::U64)) by {
        reveal_strlit("u64");
        lemma_ascii_bytes("u64"@);
        assert(utf8_of("u64"@) =~= seq![0x75u8, 0x36, 0x34]);
    }
    assert(scalar_type_named(utf8_of("uint64_t"@)) == Some(PayloadType::U64)) by {
        reveal_strlit("uint64_t");
        lemma_ascii_bytes("uint64_t"@);
        assert(utf8_of("uint64_t"@) =~= seq![0x75u8, 0x69, 0x6e, 0x74, 0x36, 0x34, 0x5f, 0x74]);
    }
}

/// Type names of the definition files: `i8`/`int8_t`, `i16`/`int16_t`, `i32`/`int32_t` and `i64`/`int64_t` name the
/// signed integers of those widths.
pub proof fn law_type_names_of_signed_integers()
    ensures
        scalar_type_named(utf8_of("i8"@)) == Some(PayloadType::I8),
        scalar_type_named(utf8_of("int8_t"@)) == Some(PayloadType::I8),
        scalar_type_named(utf8_of("i16"@)) == Some(PayloadType::I16),
        scalar_type_named(utf8_of("int16_t"@)) == Some(PayloadType::I16),
        scalar_type_named(utf8_of("i32"@)) == Some(PayloadType::I32),
        scalar_type_named(utf8_of("int32_t"@)) == Some(PayloadType::I32),
        scalar_type_named(utf8_of("i64"@)) == Some(PayloadType::I64),
        scalar_type_named(utf8_of("int64_t"@)) == Some(PayloadType::I64),
{
    assert(scalar_type_named(utf8_of("i8"@)) == Some(PayloadType::I8)) by {
        reveal_strlit("i8");
        lemma_ascii_bytes("i8"@);
        assert(utf8_of("i8"@) =~= seq![0x69u8, 0x38]);
    }
    assert(scalar_type_named(utf8_of("int8_t"@)) == Some(PayloadType::I8)) by {
        reveal_strlit("int8_t");
        lemma_ascii_bytes("int8_t"@);
        assert(utf8_of("int8_t"@) =~= seq![0x69u8, 0x6e, 0x74, 0x38, 0x5f, 0x74]);
    }
    assert(scalar_type_named(utf8_of("i16"@)) == Some(PayloadType::I16)) by {
        reveal_strlit("i16");
        lemma_ascii_bytes("i16"@);
        assert(utf8_of("i16"@) =~= seq![0x69u8, 0x31, 0x36]);
    }
    assert(scalar_type_named(utf8_of("int16_t"@)) == Some(PayloadType::I16)) by {
        reveal_strlit("int16_t");
        lemma_ascii_bytes("int16_t"@);
        assert(utf8_of("int16_t"@) =~= seq![0x69u8, 0x6e, 0x74, 0x31, 0x36, 0x5f, 0x74]);
    }
    assert(scalar_type_named(utf8_of("i32"@)) == Some(PayloadType::I32)) by {
        reveal_strlit("i32");
        lemma_ascii_bytes("i32"@);
        assert(utf8_of("i32"@) =~= seq![0x69u8, 0x33, 0x32]);
    }
    assert(scalar_type_named(utf8_of("int32_t"@)) == Some(PayloadType::I32)) by {
        reveal_strlit("int32_t");
        lemma_ascii_bytes("int32_t"@);
        assert(utf8_of("int32_t"@) =~= seq![0x69u8, 0x6e, 0x74, 0x33, 0x32, 0x5f, 0x74]);
    }
    assert(scalar_type_named(utf8_of("i64"@)) == Some(PayloadType::I64)) by {
        reveal_strlit("i64");
        lemma_ascii_bytes("i64"@);
        assert(utf8_of("i64"@) =~= seq![0x69u8, 0x36, 0x34]);
    }
    assert(scalar_type_named(utf8_of("int64_t"@)) == Some(PayloadType::I64)) by {
        reveal_strlit("int64_t");
        lemma_ascii_bytes("int64_t"@);
        assert(utf8_of("int64_t"@) =~= seq![0x69u8, 0x6e, 0x74, 0x36, 0x34, 0x5f, 0x74]);
    }
}

/// Type names of the definition files: `bool` and `boolean` name a boolean, `char` a character, `float` and `double` the
/// 32- and 64-bit floats, and the word `vector` names no scalar type.
pub proof fn law_type_names_of_other_scalars()
    ensures
        scalar_type_named(utf8_of("bool"@)) == Some(PayloadType::BOOL),
        scalar_type_named(utf8_of("boolean"@)) == Some(PayloadType::BOOL),
        scalar_type_named(utf8_of("char"@)) == Some(PayloadType::CHAR),
        scalar_type_named(utf8_of("float"@)) == Some(PayloadType::F32),
        scalar_type_named(utf8_of("double"@)) == Some(PayloadType::F64),
        scalar_type_named(utf8_of("vector"@)) is None,
{
    assert(scalar_type_named(utf8_of("bool"@)) == Some(PayloadType::BOOL)) by {
        reveal_strlit("bool");
        lemma_ascii_bytes("bool"@);
        assert(utf8_of("bool"@) =~= seq![0x62u8, 0x6f, 0x6f, 0x6c]);
    }
    assert(scalar_type_named(utf8_of("boolean"@)) == Some(PayloadType::BOOL)) by {
        reveal_strlit("boolean");
        lemma_ascii_bytes("boolean"@);
        assert(utf8_of("boolean"@) =~= seq![0x62u8, 0x6f, 0x6f, 0x6c, 0x65, 0x61, 0x6e]);
    }
    assert(scalar_type_named(utf8_of("char"@)) == Some(PayloadType::CHAR)) by {
        reveal_strlit("char");
        lemma_ascii_bytes("char"@);
        assert(utf8_of("char"@) =~= seq![0x63u8, 0x68, 0x61, 0x72]);
    }
    assert(scalar_type_named(utf8_of("float"@)) == Some(PayloadType::F32)) by {
        reveal_strlit("float");
        lemma_ascii_bytes("float"@);
        assert(utf8_of("float"@) =~= seq![0x66u8, 0x6c, 0x6f, 0x61, 0x74]);
    }
    assert(scalar_type_named(utf8_of("double"@)) == Some(PayloadType::F64)) by {
        reveal_strlit("double");
        lemma_ascii_bytes("double"@);
        assert(utf8_of("double"@) =~= seq![0x64u8, 0x6f, 0x75, 0x62, 0x6c, 0x65]);
    }
    assert(scalar_type_named(utf8_of("vector"@)) is None) by {
        reveal_strlit("vector");
        lemma_ascii_bytes("vector"@);
        assert(utf8_of("vector"@) =~= seq![0x76u8, 0x65, 0x63, 0x74, 0x6f, 0x72]);
    }
}

/// Size in bytes of one value of the type on the wire; zero for vectors.
pub open spec fn type_size(t: PayloadType) -> usize {
    match t {
        PayloadType::BOOL | PayloadType::CHAR | PayloadType::U8 | PayloadType::I8 => 1,
        PayloadType::U16 | PayloadType::I16 => 2,
        PayloadType::U32 | PayloadType::I32 | PayloadType::F32 => 4,
        PayloadType::U64 | PayloadType::I64 | PayloadType::F64 => 8,
        PayloadType::VECTOR(_) => 0,
    }
}

/// The wire size of each type: one byte for booleans, characters and 8-bit integers, and
/// as many bytes as its width for the other integers and the floats; a vector has no fixed
/// size.
pub proof fn law_type_sizes(v: Box<VectorType>)
    ensures
        type_size(PayloadType::BOOL) == 1,
        type_size(PayloadType::CHAR) == 1,
        type_size(PayloadType::U8) == 1,
        type_size(PayloadType::I8) == 1,
        type_size(PayloadType::U16) == 2,
        type_size(PayloadType::I16) == 2,
        type_size(PayloadType::U32) == 4,
        type_size(PayloadType::I32) == 4,
        type_size(PayloadType::F32) == 4,
        type_size(PayloadType::U64) == 8,
        type_size(PayloadType::I64) == 8,
        type_size(PayloadType::F64) == 8,
        type_size(PayloadType::VECTOR(v)) == 0,
{
}

/// Whether two byte slices hold the same bytes.
fn bytes_equal(a: &[u8], b: &[u8]) -> (equal: bool)
    ensures
        equal == (a@ == b@),
{
    if a.len() != b.len() {
        return false;
    }
    let mut i: usize = 0;
    while i < a.len()
        invariant
            i <= a@.len(),
            a@.len() == b@.len(),
            a@.take(i as int) == b@.take(i as int),
        decreases a@.len() - i,
    {
        if a[i] != b[i] {
            assert(a@[i as int] != b@[i as int]);
            return false;
        }
        assert(a@.take(i + 1) =~= a@.take(i as int).push(a@[i as int]));
        assert(b@.take(i + 1) =~= b@.take(i as int).push(b@[i as int]));
        i += 1;
    }
    assert(a@ =~= a@.take(i as int));
    assert(b@ =~= b@.take(i as int));
    true
}

/// Whether `needle` occurs in `hay` starting at index `start`.
fn occurs_at(hay: &[u8], needle: &[u8], start: usize) -> (found: bool)
    requires
        start + needle.len() <= hay.len(),
    ensures
        found == (hay@.subrange(start as int, start + needle@.len()) == needle@),
{
    let mut k: usize = 0;
    while k < needle.len()
        invariant
            start + needle.len() <= hay.len(),
            k <= needle@.len(),
            hay@.subrange(start as int, start + k) == needle@.take(k as int),
        decreases needle@.len() - k,
    {
        if hay[start + k] != needle[k] {
            assert(hay@.subrange(start as int, start + needle@.len())[k as int] != needle@[k as int]);
            return false;
        }
        assert(hay@.subrange(start as int, start + k + 1) =~= hay@.subrange(start as int, start + k).push(
            hay@[start + k],
        ));
        assert(needle@.take(k + 1) =~= needle@.take(k as int).push(needle@[k as int]));
        k += 1;
    }
    assert(needle@.take(k as int) =~= needle@);
    true
}

/// Whether `needle` occurs in `hay`.
fn bytes_contain(hay: &[u8], needle: &[u8]) -> (found: bool)
    ensures
        found == occurs_in(needle@, hay@),
{
    if needle.len() > hay.len() {
        return false;
    }
    let last: usize = hay.len() - needle.len();
    let mut i: usize = 0;
    loop
        invariant
            needle@.len() <= hay@.len(),
            last == hay@.len() - needle@.len(),
            i <= last,
            forall|j: int| 0 <= j < i ==> #[trigger] hay@.subrange(j, j + needle@.len()) != needle@,
        ensures
            forall|j: int|
                0 <= j <= last ==> #[trigger] hay@.subrange(j, j + needle@.len()) != needle@,
        decreases last - i,
    {
        if occurs_at(hay, needle, i) {
            return true;
        }
        if i == last {
            break;
        }
        i += 1;
    }
    false
}

/// Whether a field's type name in a definition file names a vector: it holds the word
/// "vector".
pub fn names_vector(typ: &str) -> (found: bool)
    ensures
        found == occurs_in(vector_word(), utf8_of(typ@)),
{
    // "vector"
    bytes_contain(typ.as_bytes(), &[0x76u8, 0x65, 0x63, 0x74, 0x6f, 0x72])
}

impl TypeDescription {
    /// Whether the description can be read into a type (see [`is_readable_description`]).
    pub fn is_readable(&self) -> (readable: bool)
        ensures
            readable == is_readable_description(self),
    {
        if names_vector(self.typ.as_str()) {
            let data_known = match &self.vector_datatype {
                Some(name) => PayloadType::from_name(name.as_str()).is_some(),
                None => false,
            };
            let size_known = match &self.vector_sizetype {
                Some(name) => PayloadType::from_name(name.as_str()).is_some(),
                None => true,
            };
            data_known && size_known
        } else {
            PayloadType::from_name(self.typ.as_str()).is_some()
        }
    }
}

impl PayloadType {
    /// The scalar type with the given name in a definition file, if the name is one.
    pub fn from_name(name: &str) -> (t: Option<PayloadType>)
        ensures
            t == scalar_type_named(utf8_of(name@)),
    {
        let n = name.as_bytes();
        // "bool", "boolean"
        if bytes_equal(n, &[0x62u8, 0x6f, 0x6f, 0x6c]) || bytes_equal(n, &[0x62u8, 0x6f, 0x6f, 0x6c, 0x65, 0x61, 0x6e]) {
            Some(PayloadType::BOOL)
        // "char"
        } else if bytes_equal(n, &[0x63u8, 0x68, 0x61, 0x72]) {
            Some(PayloadType::CHAR)
        // "u8", "uint8_t"
        } else if bytes_equal(n, &[0x75u8, 0x38]) || bytes_equal(n, &[0x75u8, 0x69, 0x6e, 0x74, 0x38, 0x5f, 0x74]) {
            Some(PayloadType::U8)
        // "u16", "uint16_t"
        } else if bytes_equal(n, &[0x75u8, 0x31, 0x36]) || bytes_equal(n, &[0x75u8, 0x69, 0x6e, 0x74, 0x31, 0x36, 0x5f, 0x74]) {
            Some(PayloadType::U16)
        // "u32", "uint32_t"
        } else if bytes_equal(n, &[0x75u8, 0x33, 0x32]) || bytes_equal(n, &[0x75u8, 0x69, 0x6e, 0x74, 0x33, 0x32, 0x5f, 0x74]) {
            Some(PayloadType::U32)
        // "u64", "uint64_t"
        } else if bytes_equal(n, &[0x75u8, 0x36, 0x34]) || bytes_equal(n, &[0x75u8, 0x69, 0x6e, 0x74, 0x36, 0x34, 0x5f, 0x74]) {
            Some(PayloadType::U64)
        // "i8", "int8_t"
        } else if bytes_equal(n, &[0x69u8, 0x38]) || bytes_equal(n, &[0x69u8, 0x6e, 0x74, 0x38, 0x5f, 0x74]) {
            Some(PayloadType::I8)
        // "i16", "int16_t"
        } else if bytes_equal(n, &[0x69u8, 0x31, 0x36]) || bytes_equal(n, &[0x69u8, 0x6e, 0x74, 0x31, 0x36, 0x5f, 0x74]) {
            Some(PayloadType::I16)
        // "i32", "int32_t"
        } else if bytes_equal(n, &[0x69u8, 0x33, 0x32]) || bytes_equal(n, &[0x69u8, 0x6e, 0x74, 0x33, 0x32, 0x5f, 0x74]) {
            Some(PayloadType::I32)
        // "i64", "int64_t"
        } else if bytes_equal(n, &[0x69u8, 0x36, 0x34]) || bytes_equal(n, &[0x69u8, 0x6e, 0x74, 0x36, 0x34, 0x5f, 0x74]) {
            Some(PayloadType::I64)
        // "float"
        } else if bytes_equal(n, &[0x66u8, 0x6c, 0x6f, 0x61, 0x74]) {
            Some(PayloadType::F32)
        // "double"
        } else if bytes_equal(n, &[0x64u8, 0x6f, 0x75, 0x62, 0x6c, 0x65]) {
            Some(PayloadType::F64)
        } else {
            None
        }
    }

    /// The scalar type with the given name in a definition file.
    pub fn from_string(name: &str) -> (t: PayloadType)
        requires
            scalar_type_named(utf8_of(name@)) is Some,
        ensures
            scalar_type_named(utf8_of(name@)) == Some(t),
    {
        PayloadType::from_name(name).unwrap()
    }

    /// The type of a field from its description in a definition file.
    pub fn from_json(description: &TypeDescription) -> (t: PayloadType)
        requires
            is_readable_description(description),
        ensures
            t == described_type(description),
    {
        let typ = description.typ.as_str();
        if names_vector(typ) {
            let data_type = match &description.vector_datatype {
                Some(name) => PayloadType::from_string(name.as_str()),
                None => PayloadType::U8,
            };
            let size_type = match &description.vector_sizetype {
                Some(name) => Some(PayloadType::from_string(name.as_str())),
                None => None,
            };
            return PayloadType::VECTOR(Box::new(VectorType { data_type, size_type }));
        }
        PayloadType::from_string(typ)
    }

    /// Size in bytes of one value of the type on the wire; zero for vectors.
    pub fn to_size(&self) -> (size: usize)
        ensures
            size == type_size(*self),
    {
        match self {
            PayloadType::BOOL | PayloadType::CHAR | PayloadType::U8 | PayloadType::I8 => 1,
            PayloadType::U16 | PayloadType::I16 => 2,
            PayloadType::U32 | PayloadType::I32 | PayloadType::F32 => 4,
            PayloadType::U64 | PayloadType::I64 | PayloadType::F64 => 8,
            PayloadType::VECTOR(_) => 0,
        }
    }
}

} // verus!
