//! The header emitter: renders a specification as C++ source text, one
//! `constexpr` declaration per enumerant, in document order, after a
//! fixed preamble of foundational type aliases. The text is a function
//! of the specification alone; writing it to disk is the caller's
//! affair.

use vstd::prelude::*;
use vstd::string::StringExecFns;
use crate::registry::{Spec, SpecModel, EnumerantModel};

verus! {

/// The fixed preamble of foundational type aliases, emitted once before
/// any constants.
pub const TYPES_PREAMBLE: &'static str = "
#if defined(_WIN64)
typedef signed long long int khronos_ssize_t;
typedef unsigned long long int khronos_usize_t;
#else
typedef signed long int khronos_ssize_t;
typedef unsigned long int khronos_usize_t;
#endif

typedef unsigned int GLenum;
typedef unsigned char GLboolean;
typedef unsigned int GLbitfield;
typedef void GLvoid;
typedef int8_t GLbyte;
typedef uint8_t GLubyte;
typedef int16_t GLshort;
typedef uint16_t GLushort;
typedef int GLint;
typedef unsigned int GLuint;
typedef int32_t GLclampx;
typedef int GLsizei;
typedef float GLfloat;
typedef float GLclampf;
typedef double GLdouble;
typedef double GLclampd;
typedef void *GLeglClientBufferEXT;
typedef void *GLeglImageOES;
typedef char GLchar;
typedef char GLcharARB;
#ifdef __APPLE__
typedef void *GLhandleARB;
#else
typedef unsigned int GLhandleARB;
#endif
typedef uint16_t GLhalf;
typedef uint16_t GLhalfARB;
typedef int32_t GLfixed;
typedef intptr_t GLintptr;
typedef intptr_t GLintptrARB;
typedef khronos_ssize_t GLsizeiptr;
typedef khronos_ssize_t GLsizeiptrARB;
typedef int64_t GLint64;
typedef int64_t GLint64EXT;
typedef uint64_t GLuint64;
typedef uint64_t GLuint64EXT;

typedef struct __GLsync *GLsync;

struct _cl_context;
struct _cl_event;

typedef void (*GLDEBUGPROC)(
    GLenum source,
    GLenum type,
    GLuint id,
    GLenum severity,
    GLsizei length,
    const GLchar *message,
    const void *userParam
);
typedef void (*GLDEBUGPROCARB)(
    GLenum source,
    GLenum type,
    GLuint id,
    GLenum severity,
    GLsizei length,
    const GLchar *message,
    const void *userParam
);
typedef void (*GLDEBUGPROCKHR)(
    GLenum source,
    GLenum type,
    GLuint id,
    GLenum severity,
    GLsizei length,
    const GLchar *message,
    const void *userParam
);
typedef void (*GLDEBUGPROCAMD)(
    GLuint id,
    GLenum category,
    GLenum severity,
    GLsizei length,
    const GLchar *message,
    void *userParam
);

typedef unsigned short GLhalfNV;
typedef GLintptr GLvdpauSurfaceNV;

typedef void (*GLVULKANPROCNV)(void);
";

/// The decimal digit characters.
pub open spec fn dec_digit(d: int) -> char {
    if d == 0 {
        '0'
    } else if d == 1 {
        '1'
    } else if d == 2 {
        '2'
    } else if d == 3 {
        '3'
    } else if d == 4 {
        '4'
    } else if d == 5 {
        '5'
    } else if d == 6 {
        '6'
    } else if d == 7 {
        '7'
    } else if d == 8 {
        '8'
    } else {
        '9'
    }
}

/// The uppercase hexadecimal digit characters.
pub open spec fn hex_digit(d: int) -> char {
    if d < 10 {
        dec_digit(d)
    } else if d == 10 {
        'A'
    } else if d == 11 {
        'B'
    } else if d == 12 {
        'C'
    } else if d == 13 {
        'D'
    } else if d == 14 {
        'E'
    } else {
        'F'
    }
}

/// The decimal rendering of a non-negative number, no leading zeros.
pub open spec fn dec_str(n: int) -> Seq<char>
    decreases n,
{
    if n <= 9 {
        seq![dec_digit(n)]
    } else {
        dec_str(n / 10).push(dec_digit(n % 10))
    }
}

/// The uppercase hexadecimal rendering of a non-negative number, no
/// leading zeros and no prefix.
pub open spec fn hex_str(n: int) -> Seq<char>
    decreases n,
{
    if n <= 15 {
        seq![hex_digit(n)]
    } else {
        hex_str(n / 16).push(hex_digit(n % 16))
    }
}

/// How a constant's value is rendered: unsigned as prefixed uppercase
/// hexadecimal, signed as a decimal with an explicit leading minus (a
/// signed magnitude is never rendered in hex).
pub open spec fn rendered_value(value: u64, signed: bool) -> Seq<char> {
    if signed {
        "-"@ + dec_str(value as int)
    } else {
        "0x"@ + hex_str(value as int)
    }
}

/// The closed mapping from an inferred representation to the emitted
/// type name; a width outside {8, 32, 64} (which classification never
/// produces) falls back to the generic marker.
pub open spec fn type_token(signed: bool, bitwidth: u32) -> Seq<char> {
    if !signed {
        if bitwidth == 8 {
            "uint8_t"@
        } else if bitwidth == 32 {
            "uint32_t"@
        } else if bitwidth == 64 {
            "uint64_t"@
        } else {
            "auto"@
        }
    } else {
        if bitwidth == 8 {
            "int8_t"@
        } else if bitwidth == 32 {
            "int32_t"@
        } else if bitwidth == 64 {
            "int64_t"@
        } else {
            "auto"@
        }
    }
}

/// One declaration line.
pub open spec fn decl_line(e: EnumerantModel) -> Seq<char> {
    "constexpr "@ + type_token(e.signed, e.bitwidth) + " "@ + e.name + " = "@ + rendered_value(
        e.value,
        e.signed,
    ) + ";\n"@
}

/// The declaration lines of a list of enumerants, in order.
pub open spec fn decls(enums: Seq<EnumerantModel>) -> Seq<char>
    decreases enums.len(),
{
    if enums.len() == 0 {
        Seq::empty()
    } else {
        decls(enums.drop_last()) + decl_line(enums.last())
    }
}

/// The whole header: the include line, the type preamble, a blank
/// separator, then one declaration per enumerant in list order.
pub open spec fn header_output(m: SpecModel) -> Seq<char> {
    "#include <cstdint>\n\n"@ + TYPES_PREAMBLE@ + "\n"@ + decls(m.enums)
}

fn dec_digit_str(d: u64) -> (r: &'static str)
    requires
        d <= 9,
    ensures
        r@ == seq![dec_digit(d as int)],
{
    let r = if d == 0 {
        "0"
    } else if d == 1 {
        "1"
    } else if d == 2 {
        "2"
    } else if d == 3 {
        "3"
    } else if d == 4 {
        "4"
    } else if d == 5 {
        "5"
    } else if d == 6 {
        "6"
    } else if d == 7 {
        "7"
    } else if d == 8 {
        "8"
    } else {
        "9"
    };
    proof {
        reveal_strlit("0");
        reveal_strlit("1");
        reveal_strlit("2");
        reveal_strlit("3");
        reveal_strlit("4");
        reveal_strlit("5");
        reveal_strlit("6");
        reveal_strlit("7");
        reveal_strlit("8");
        reveal_strlit("9");
        assert(r@ =~= seq![dec_digit(d as int)]);
    }
    r
}

fn hex_digit_str(d: u64) -> (r: &'static str)
    requires
        d <= 15,
    ensures
        r@ == seq![hex_digit(d as int)],
{
    if d <= 9 {
        dec_digit_str(d)
    } else {
        let r = if d == 10 {
            "A"
        } else if d == 11 {
            "B"
        } else if d == 12 {
            "C"
        } else if d == 13 {
            "D"
        } else if d == 14 {
            "E"
        } else {
            "F"
        };
        proof {
            reveal_strlit("A");
            reveal_strlit("B");
            reveal_strlit("C");
            reveal_strlit("D");
            reveal_strlit("E");
            reveal_strlit("F");
            assert(r@ =~= seq![hex_digit(d as int)]);
        }
        r
    }
}

/// Renders a number in decimal.
fn u64_to_dec(n: u64) -> (s: String)
    ensures
        s@ == dec_str(n as int),
    decreases n,
{
    if n <= 9 {
        dec_digit_str(n).to_owned()
    } else {
        let mut s = u64_to_dec(n / 10);
        s.append(dec_digit_str(n % 10));
        proof {
            assert(s@ =~= dec_str(n as int / 10).push(dec_digit(n as int % 10)));
        }
        s
    }
}

/// Renders a number in uppercase hexadecimal.
fn u64_to_hex(n: u64) -> (s: String)
    ensures
        s@ == hex_str(n as int),
    decreases n,
{
    if n <= 15 {
        hex_digit_str(n).to_owned()
    } else {
        let mut s = u64_to_hex(n / 16);
        s.append(hex_digit_str(n % 16));
        proof {
            assert(s@ =~= hex_str(n as int / 16).push(hex_digit(n as int % 16)));
        }
        s
    }
}

fn type_token_str(signed: bool, bitwidth: u32) -> (r: &'static str)
    ensures
        r@ == type_token(signed, bitwidth),
{
    if !signed {
        if bitwidth == 8 {
            "uint8_t"
        } else if bitwidth == 32 {
            "uint32_t"
        } else if bitwidth == 64 {
            "uint64_t"
        } else {
            "auto"
        }
    } else {
        if bitwidth == 8 {
            "int8_t"
        } else if bitwidth == 32 {
            "int32_t"
        } else if bitwidth == 64 {
            "int64_t"
        } else {
            "auto"
        }
    }
}

/// Renders specifications as source text.
pub trait Emitter {
    /// The whole output for a specification.
    fn emit(&self, sp: &Spec) -> String;
}

/// The C++ flavour of the emitter.
pub struct CppEmitter;

impl CppEmitter {
    /// The fixed preamble of type aliases, exactly `TYPES_PREAMBLE`.
    pub fn emit_types(&self) -> (out: String)
        ensures
            out@ == TYPES_PREAMBLE@,
    {
        TYPES_PREAMBLE.to_owned()
    }

    /// One `constexpr` declaration per enumerant, in list order, as
    /// `decls` states.
    pub fn emit_enums(&self, sp: &Spec) -> (out: String)
        ensures
            out@ == decls(sp@.enums),
    {
        let mut out = String::new();
        let n = sp.enums_list.len();
        let mut i: usize = 0;
        proof {
            assert(decls(sp@.enums.subrange(0, 0)) =~= Seq::<char>::empty());
        }
        while i < n
            invariant
                0 <= i <= n,
                n == sp.enums_list@.len(),
                sp@.enums.len() == n,
                out@ == decls(sp@.enums.subrange(0, i as int)),
            decreases n - i,
        {
            let ghost before = out@;
            let e = &sp.enums_list[i];
            out.append("constexpr ");
            out.append(type_token_str(e.value.ty.signed, e.value.ty.bitwidth));
            out.append(" ");
            out.append(e.name.0.as_str());
            out.append(" = ");
            if e.value.ty.signed {
                out.append("-");
                let num = u64_to_dec(e.value.value);
                out.append(num.as_str());
            } else {
                out.append("0x");
                let num = u64_to_hex(e.value.value);
                out.append(num.as_str());
            }
            out.append(";\n");
            proof {
                let model = sp@.enums;
                assert(model[i as int] == sp.enums_list@[i as int]@);
                assert(model.subrange(0, i + 1).drop_last() =~= model.subrange(0, i as int));
                assert(model.subrange(0, i + 1).last() == model[i as int]);
                assert(out@ =~= before + decl_line(model[i as int]));
            }
            i += 1;
        }
        proof {
            assert(sp@.enums.subrange(0, n as int) =~= sp@.enums);
        }
        out
    }

    /// The whole header: include line, preamble, separator, then the
    /// declarations, exactly as `header_output` states. The text is a
    /// function of the specification alone, so emitting twice over the
    /// same specification is byte-identical.
    pub fn emit_header(&self, sp: &Spec) -> (out: String)
        ensures
            out@ == header_output(sp@),
    {
        let mut out = String::from_str("#include <cstdint>\n\n");
        let types = self.emit_types();
        out.append(types.as_str());
        out.append("\n");
        let body = self.emit_enums(sp);
        out.append(body.as_str());
        proof {
            assert(out@ =~= header_output(sp@));
        }
        out
    }
}

impl Emitter for CppEmitter {
    fn emit(&self, sp: &Spec) -> (out: String)
        ensures
            out@ == header_output(sp@),
    {
        self.emit_header(sp)
    }
}

/// The emitted header is a function of the specification model alone:
/// two emissions over equal specifications are byte-identical.
pub proof fn lemma_emit_deterministic(a: SpecModel, b: SpecModel)
    requires
        a == b,
    ensures
        header_output(a) == header_output(b),
{
}

} // verus!
