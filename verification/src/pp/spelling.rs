//! How the source words are spelt, byte by byte.

use vstd::prelude::*;
use vstd::utf8::{encode_utf8, is_ascii_chars, is_ascii_chars_encode_utf8};

verus! {

/// The bytes of `"let"`.
pub proof fn spell_let()
    ensures
        is_ascii_chars("let"@),
        "let"@.len() == 3,
        encode_utf8("let"@) == seq![108u8, 101u8, 116u8],
{
    reveal_strlit("let");
    is_ascii_chars_encode_utf8("let"@);
    assert(encode_utf8("let"@) =~= seq![108u8, 101u8, 116u8]);
}

/// The bytes of `"fn"`.
pub proof fn spell_fn()
    ensures
        is_ascii_chars("fn"@),
        "fn"@.len() == 2,
        encode_utf8("fn"@) == seq![102u8, 110u8],
{
    reveal_strlit("fn");
    is_ascii_chars_encode_utf8("fn"@);
    assert(encode_utf8("fn"@) =~= seq![102u8, 110u8]);
}

/// The bytes of `"if"`.
pub proof fn spell_if()
    ensures
        is_ascii_chars("if"@),
        "if"@.len() == 2,
        encode_utf8("if"@) == seq![105u8, 102u8],
{
    reveal_strlit("if");
    is_ascii_chars_encode_utf8("if"@);
    assert(encode_utf8("if"@) =~= seq![105u8, 102u8]);
}

/// The bytes of `"val"`.
pub proof fn spell_val()
    ensures
        is_ascii_chars("val"@),
        "val"@.len() == 3,
        encode_utf8("val"@) == seq![118u8, 97u8, 108u8],
{
    reveal_strlit("val");
    is_ascii_chars_encode_utf8("val"@);
    assert(encode_utf8("val"@) =~= seq![118u8, 97u8, 108u8]);
}

/// The bytes of `"fun"`.
pub proof fn spell_fun()
    ensures
        is_ascii_chars("fun"@),
        "fun"@.len() == 3,
        encode_utf8("fun"@) == seq![102u8, 117u8, 110u8],
{
    reveal_strlit("fun");
    is_ascii_chars_encode_utf8("fun"@);
    assert(encode_utf8("fun"@) =~= seq![102u8, 117u8, 110u8]);
}

/// The bytes of `"in"`.
pub proof fn spell_in()
    ensures
        is_ascii_chars("in"@),
        "in"@.len() == 2,
        encode_utf8("in"@) == seq![105u8, 110u8],
{
    reveal_strlit("in");
    is_ascii_chars_encode_utf8("in"@);
    assert(encode_utf8("in"@) =~= seq![105u8, 110u8]);
}

/// The bytes of `"end"`.
pub proof fn spell_end()
    ensures
        is_ascii_chars("end"@),
        "end"@.len() == 3,
        encode_utf8("end"@) == seq![101u8, 110u8, 100u8],
{
    reveal_strlit("end");
    is_ascii_chars_encode_utf8("end"@);
    assert(encode_utf8("end"@) =~= seq![101u8, 110u8, 100u8]);
}

/// The bytes of `"then"`.
pub proof fn spell_then()
    ensures
        is_ascii_chars("then"@),
        "then"@.len() == 4,
        encode_utf8("then"@) == seq![116u8, 104u8, 101u8, 110u8],
{
    reveal_strlit("then");
    is_ascii_chars_encode_utf8("then"@);
    assert(encode_utf8("then"@) =~= seq![116u8, 104u8, 101u8, 110u8]);
}

/// The bytes of `"else"`.
pub proof fn spell_else()
    ensures
        is_ascii_chars("else"@),
        "else"@.len() == 4,
        encode_utf8("else"@) == seq![101u8, 108u8, 115u8, 101u8],
{
    reveal_strlit("else");
    is_ascii_chars_encode_utf8("else"@);
    assert(encode_utf8("else"@) =~= seq![101u8, 108u8, 115u8, 101u8]);
}

/// The bytes of `"=>"`.
pub proof fn spell_arrow()
    ensures
        is_ascii_chars("=>"@),
        "=>"@.len() == 2,
        encode_utf8("=>"@) == seq![61u8, 62u8],
{
    reveal_strlit("=>");
    is_ascii_chars_encode_utf8("=>"@);
    assert(encode_utf8("=>"@) =~= seq![61u8, 62u8]);
}

/// The bytes of `"true"`.
pub proof fn spell_true()
    ensures
        is_ascii_chars("true"@),
        "true"@.len() == 4,
        encode_utf8("true"@) == seq![116u8, 114u8, 117u8, 101u8],
{
    reveal_strlit("true");
    is_ascii_chars_encode_utf8("true"@);
    assert(encode_utf8("true"@) =~= seq![116u8, 114u8, 117u8, 101u8]);
}

/// The bytes of `"false"`.
pub proof fn spell_false()
    ensures
        is_ascii_chars("false"@),
        "false"@.len() == 5,
        encode_utf8("false"@) == seq![102u8, 97u8, 108u8, 115u8, 101u8],
{
    reveal_strlit("false");
    is_ascii_chars_encode_utf8("false"@);
    assert(encode_utf8("false"@) =~= seq![102u8, 97u8, 108u8, 115u8, 101u8]);
}

/// The bytes of `"+"`.
pub proof fn spell_plus()
    ensures
        is_ascii_chars("+"@),
        "+"@.len() == 1,
        encode_utf8("+"@) == seq![43u8],
{
    reveal_strlit("+");
    is_ascii_chars_encode_utf8("+"@);
    assert(encode_utf8("+"@) =~= seq![43u8]);
}

/// The bytes of `"*"`.
pub proof fn spell_star()
    ensures
        is_ascii_chars("*"@),
        "*"@.len() == 1,
        encode_utf8("*"@) == seq![42u8],
{
    reveal_strlit("*");
    is_ascii_chars_encode_utf8("*"@);
    assert(encode_utf8("*"@) =~= seq![42u8]);
}

/// The bytes of `"let "`.
pub proof fn spell_let_sp()
    ensures
        is_ascii_chars("let "@),
        "let "@.len() == 4,
        encode_utf8("let "@) == seq![108u8, 101u8, 116u8, 32u8],
{
    reveal_strlit("let ");
    is_ascii_chars_encode_utf8("let "@);
    assert(encode_utf8("let "@) =~= seq![108u8, 101u8, 116u8, 32u8]);
}

/// The bytes of `" in "`.
pub proof fn spell_sp_in_sp()
    ensures
        is_ascii_chars(" in "@),
        " in "@.len() == 4,
        encode_utf8(" in "@) == seq![32u8, 105u8, 110u8, 32u8],
{
    reveal_strlit(" in ");
    is_ascii_chars_encode_utf8(" in "@);
    assert(encode_utf8(" in "@) =~= seq![32u8, 105u8, 110u8, 32u8]);
}

/// The bytes of `" end"`.
pub proof fn spell_sp_end()
    ensures
        is_ascii_chars(" end"@),
        " end"@.len() == 4,
        encode_utf8(" end"@) == seq![32u8, 101u8, 110u8, 100u8],
{
    reveal_strlit(" end");
    is_ascii_chars_encode_utf8(" end"@);
    assert(encode_utf8(" end"@) =~= seq![32u8, 101u8, 110u8, 100u8]);
}

/// The bytes of `"fn "`.
pub proof fn spell_fn_sp()
    ensures
        is_ascii_chars("fn "@),
        "fn "@.len() == 3,
        encode_utf8("fn "@) == seq![102u8, 110u8, 32u8],
{
    reveal_strlit("fn ");
    is_ascii_chars_encode_utf8("fn "@);
    assert(encode_utf8("fn "@) =~= seq![102u8, 110u8, 32u8]);
}

/// The bytes of `" => "`.
pub proof fn spell_sp_arrow_sp()
    ensures
        is_ascii_chars(" => "@),
        " => "@.len() == 4,
        encode_utf8(" => "@) == seq![32u8, 61u8, 62u8, 32u8],
{
    reveal_strlit(" => ");
    is_ascii_chars_encode_utf8(" => "@);
    assert(encode_utf8(" => "@) =~= seq![32u8, 61u8, 62u8, 32u8]);
}

/// The bytes of `"if "`.
pub proof fn spell_if_sp()
    ensures
        is_ascii_chars("if "@),
        "if "@.len() == 3,
        encode_utf8("if "@) == seq![105u8, 102u8, 32u8],
{
    reveal_strlit("if ");
    is_ascii_chars_encode_utf8("if "@);
    assert(encode_utf8("if "@) =~= seq![105u8, 102u8, 32u8]);
}

/// The bytes of `" then "`.
pub proof fn spell_sp_then_sp()
    ensures
        is_ascii_chars(" then "@),
        " then "@.len() == 6,
        encode_utf8(" then "@) == seq![32u8, 116u8, 104u8, 101u8, 110u8, 32u8],
{
    reveal_strlit(" then ");
    is_ascii_chars_encode_utf8(" then "@);
    assert(encode_utf8(" then "@) =~= seq![32u8, 116u8, 104u8, 101u8, 110u8, 32u8]);
}

/// The bytes of `" else "`.
pub proof fn spell_sp_else_sp()
    ensures
        is_ascii_chars(" else "@),
        " else "@.len() == 6,
        encode_utf8(" else "@) == seq![32u8, 101u8, 108u8, 115u8, 101u8, 32u8],
{
    reveal_strlit(" else ");
    is_ascii_chars_encode_utf8(" else "@);
    assert(encode_utf8(" else "@) =~= seq![32u8, 101u8, 108u8, 115u8, 101u8, 32u8]);
}

/// The bytes of `"val "`.
pub proof fn spell_val_sp()
    ensures
        is_ascii_chars("val "@),
        "val "@.len() == 4,
        encode_utf8("val "@) == seq![118u8, 97u8, 108u8, 32u8],
{
    reveal_strlit("val ");
    is_ascii_chars_encode_utf8("val "@);
    assert(encode_utf8("val "@) =~= seq![118u8, 97u8, 108u8, 32u8]);
}

/// The bytes of `" = "`.
pub proof fn spell_sp_eq_sp()
    ensures
        is_ascii_chars(" = "@),
        " = "@.len() == 3,
        encode_utf8(" = "@) == seq![32u8, 61u8, 32u8],
{
    reveal_strlit(" = ");
    is_ascii_chars_encode_utf8(" = "@);
    assert(encode_utf8(" = "@) =~= seq![32u8, 61u8, 32u8]);
}

/// The bytes of `"fun "`.
pub proof fn spell_fun_sp()
    ensures
        is_ascii_chars("fun "@),
        "fun "@.len() == 4,
        encode_utf8("fun "@) == seq![102u8, 117u8, 110u8, 32u8],
{
    reveal_strlit("fun ");
    is_ascii_chars_encode_utf8("fun "@);
    assert(encode_utf8("fun "@) =~= seq![102u8, 117u8, 110u8, 32u8]);
}

/// The bytes of `" "`.
pub proof fn spell_sp()
    ensures
        is_ascii_chars(" "@),
        " "@.len() == 1,
        encode_utf8(" "@) == seq![32u8],
{
    reveal_strlit(" ");
    is_ascii_chars_encode_utf8(" "@);
    assert(encode_utf8(" "@) =~= seq![32u8]);
}

/// The bytes of `"\n"`.
pub proof fn spell_nl()
    ensures
        is_ascii_chars("\n"@),
        "\n"@.len() == 1,
        encode_utf8("\n"@) == seq![10u8],
{
    reveal_strlit("\n");
    is_ascii_chars_encode_utf8("\n"@);
    assert(encode_utf8("\n"@) =~= seq![10u8]);
}

/// The bytes of `"("`.
pub proof fn spell_open()
    ensures
        is_ascii_chars("("@),
        "("@.len() == 1,
        encode_utf8("("@) == seq![40u8],
{
    reveal_strlit("(");
    is_ascii_chars_encode_utf8("("@);
    assert(encode_utf8("("@) =~= seq![40u8]);
}

/// The bytes of `")"`.
pub proof fn spell_close()
    ensures
        is_ascii_chars(")"@),
        ")"@.len() == 1,
        encode_utf8(")"@) == seq![41u8],
{
    reveal_strlit(")");
    is_ascii_chars_encode_utf8(")"@);
    assert(encode_utf8(")"@) =~= seq![41u8]);
}

} // verus!
