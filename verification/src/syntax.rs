//! The spelling of every keyword, built-in name and separator of the
//! language, in one place.
use vstd::prelude::*;

verus! {

pub const KW_FN: &'static str = "fn";

pub const KW_PUB: &'static str = "pub";

pub const KW_VAL: &'static str = "val";

pub const KW_VAR: &'static str = "var";

pub const KW_MUTATE: &'static str = "mut";

pub const KW_MOVE: &'static str = "take";

pub const KW_VIEW: &'static str = "view";

pub const KW_STORED: &'static str = "ref";

pub const KW_STRUCT: &'static str = "struct";

pub const KW_ENUM: &'static str = "enum";

pub const KW_CONST: &'static str = "const";

pub const KW_RETURN: &'static str = "return";

pub const KW_LOOP: &'static str = "loop";

pub const KW_UNSAFE: &'static str = "unsafe";

pub const BUILTIN_PRINT: &'static str = "print";

pub const STMT_SEP: &'static str = ";";

pub const TYPE_INT: &'static str = "Int";

pub const TYPE_FLOAT: &'static str = "Float";

pub const TYPE_BOOL: &'static str = "Bool";

pub const TYPE_STRING: &'static str = "String";

pub const TYPE_LIST: &'static str = "List";

pub const TYPE_SHARED: &'static str = "Shared";

} // verus!
