//! The plan of the lenses that are derived for a struct: one for each field
//! that is not left out, and one for the struct as a whole.

use vstd::prelude::*;
use crate::chars::{
    char_is_lowercase, char_is_uppercase, char_lowercase, chars_of, is_lowercase, is_uppercase,
    push_char, push_chars, string_of, to_lowercase,
};

verus! {

/// Whether `c` comes in an upper and a lower case.
pub open spec fn has_case(c: char) -> bool {
    char_is_lowercase(c) || char_is_uppercase(c)
}

/// Whether `c` comes in an upper and a lower case.
pub fn char_has_case(c: char) -> (cased: bool)
    ensures
        cased == has_case(c),
{
    is_lowercase(c) || is_uppercase(c)
}

/// How many underscores `s` starts with.
pub open spec fn leading_underscores(s: Seq<char>) -> int
    decreases s.len(),
{
    if s.len() > 0 && s[0] == '_' {
        1 + leading_underscores(s.drop_first())
    } else {
        0
    }
}

/// How many underscores `s` ends with.
pub open spec fn trailing_underscores(s: Seq<char>) -> int
    decreases s.len(),
{
    if s.len() > 0 && s.last() == '_' {
        1 + trailing_underscores(s.drop_last())
    } else {
        0
    }
}

/// `s` without the underscores that it starts and ends with.
pub open spec fn trimmed(s: Seq<char>) -> Seq<char> {
    if leading_underscores(s) + trailing_underscores(s) >= s.len() {
        Seq::empty()
    } else {
        s.subrange(leading_underscores(s), s.len() - trailing_underscores(s))
    }
}

/// Whether an underscore stands next to a character that comes in two
/// cases, anywhere in `s`.
pub open spec fn case_beside_underscore(s: Seq<char>) -> bool {
    exists|i: int|
        0 <= i && i + 1 < s.len() && ((has_case(#[trigger] s[i]) && s[i + 1] == '_') || (has_case(
            s[i + 1],
        ) && s[i] == '_'))
}

/// Whether two underscores stand side by side anywhere in `s`.
pub open spec fn double_underscore(s: Seq<char>) -> bool {
    exists|i: int| 0 <= i && i + 1 < s.len() && #[trigger] s[i] == '_' && s[i + 1] == '_'
}

/// Whether `name` is written in camel case: apart from the underscores that
/// it starts and ends with, it is empty, or it does not start with a
/// lowercase character, has no two underscores side by side, and has no
/// underscore next to a character that comes in two cases.
pub open spec fn camel_case(name: Seq<char>) -> bool {
    let name = trimmed(name);
    name.len() == 0 || (!char_is_lowercase(name[0]) && !double_underscore(name)
        && !case_beside_underscore(name))
}

/// The underscores at the start of a text end at the first character that is
/// none.
proof fn lemma_leading(s: Seq<char>, n: int)
    requires
        0 <= n <= s.len(),
        forall|i: int| 0 <= i < n ==> s[i] == '_',
        n < s.len() ==> s[n] != '_',
    ensures
        leading_underscores(s) == n,
    decreases n,
{
    if n > 0 {
        let rest = s.drop_first();
        assert forall|i: int| 0 <= i < n - 1 implies rest[i] == '_' by {
            assert(rest[i] == s[i + 1]);
        }
        lemma_leading(rest, n - 1);
    }
}

/// The underscores at the end of a text start behind the last character that
/// is none.
proof fn lemma_trailing(s: Seq<char>, n: int)
    requires
        0 <= n <= s.len(),
        forall|i: int| s.len() - n <= i < s.len() ==> s[i] == '_',
        n < s.len() ==> s[s.len() - n - 1] != '_',
    ensures
        trailing_underscores(s) == n,
    decreases n,
{
    if n > 0 {
        let rest = s.drop_last();
        assert forall|i: int| rest.len() - (n - 1) <= i < rest.len() implies rest[i] == '_' by {
            assert(rest[i] == s[i]);
        }
        lemma_trailing(rest, n - 1);
    }
}

/// Whether `name` is written in camel case.
pub fn is_camel_case(name: &str) -> (camel: bool)
    ensures
        camel == camel_case(name@),
{
    let chars = chars_of(name);
    let mut start: usize = 0;
    while start < chars.len() && chars[start] == '_'
        invariant
            start <= chars@.len(),
            forall|i: int| 0 <= i < start ==> chars@[i] == '_',
        decreases chars@.len() - start,
    {
        start = start + 1;
    }
    let mut end: usize = chars.len();
    while end > 0 && chars[end - 1] == '_'
        invariant
            end <= chars@.len(),
            forall|i: int| end <= i < chars@.len() ==> chars@[i] == '_',
        decreases end,
    {
        end = end - 1;
    }
    proof {
        lemma_leading(chars@, start as int);
        lemma_trailing(chars@, chars@.len() - end);
    }
    if start >= end {
        return true;
    }
    let ghost name_view = chars@.subrange(start as int, end as int);
    assert(name_view == trimmed(name@));
    if is_lowercase(chars[start]) {
        return false;
    }
    let mut i = start;
    while i + 1 < end
        invariant
            start <= i < end <= chars@.len(),
            name_view == chars@.subrange(start as int, end as int),
            name_view == trimmed(name@),
            !char_is_lowercase(name_view[0]),
            forall|k: int|
                0 <= k < i - start ==> !(#[trigger] name_view[k] == '_' && name_view[k + 1] == '_'),
            forall|k: int|
                0 <= k < i - start ==> !((has_case(#[trigger] name_view[k]) && name_view[k + 1]
                    == '_') || (has_case(name_view[k + 1]) && name_view[k] == '_')),
        decreases end - i,
    {
        let a = chars[i];
        let b = chars[i + 1];
        assert(name_view[i - start] == a && name_view[i - start + 1] == b);
        if a == '_' && b == '_' {
            assert(double_underscore(name_view));
            return false;
        }
        if (char_has_case(a) && b == '_') || (char_has_case(b) && a == '_') {
            assert(case_beside_underscore(name_view));
            return false;
        }
        i = i + 1;
    }
    true
}

/// The words of a text that is read from place `at` on, when `buffer` holds
/// the characters of the word at hand, `last_upper` says whether the last
/// character read was uppercase, and `started` says whether a character has
/// been read since the last underscore. An underscore ends the word at hand;
/// an uppercase character behind one that is not uppercase starts a new
/// word, unless the word at hand is empty or a lone apostrophe. Every
/// character goes into its word in lowercase.
pub open spec fn words_from(
    s: Seq<char>,
    at: int,
    buffer: Seq<char>,
    last_upper: bool,
    started: bool,
) -> Seq<Seq<char>>
    decreases s.len() - at,
{
    let done = if started {
        seq![buffer]
    } else {
        Seq::empty()
    };
    if at < 0 || at >= s.len() {
        done
    } else if s[at] == '_' {
        done + words_from(s, at + 1, Seq::empty(), false, false)
    } else if buffer.len() > 0 && buffer != seq!['\''] && char_is_uppercase(s[at]) && !last_upper {
        seq![buffer] + words_from(s, at + 1, char_lowercase(s[at]), char_is_uppercase(s[at]), true)
    } else {
        words_from(s, at + 1, buffer + char_lowercase(s[at]), char_is_uppercase(s[at]), true)
    }
}

/// The words of `s` from place `from` on, with an underscore between each
/// two of them.
pub open spec fn joined(words: Seq<Seq<char>>, from: int) -> Seq<char>
    decreases words.len() - from,
{
    if from < 0 || from >= words.len() {
        Seq::empty()
    } else if from + 1 == words.len() {
        words[from]
    } else {
        words[from] + seq!['_'] + joined(words, from + 1)
    }
}

/// `n` empty words.
pub open spec fn empty_words(n: int) -> Seq<Seq<char>> {
    Seq::new(
        if n < 0 {
            0
        } else {
            n as nat
        },
        |i: int| Seq::<char>::empty(),
    )
}

/// `s` in snake case: an empty word for each underscore that it starts with,
/// then the words of the rest, all joined by underscores.
pub open spec fn snake_case(s: Seq<char>) -> Seq<char> {
    joined(
        empty_words(leading_underscores(s)) + words_from(
            s,
            leading_underscores(s),
            Seq::empty(),
            false,
            false,
        ),
        0,
    )
}

/// Whether `buffer` is a lone apostrophe.
fn is_apostrophe(buffer: &Vec<char>) -> (is: bool)
    ensures
        is == (buffer@ == seq!['\'']),
{
    if buffer.len() == 1 && buffer[0] == '\'' {
        assert(buffer@ =~= seq!['\'']);
        true
    } else {
        proof {
            if buffer@ == seq!['\''] {
                assert(buffer@.len() == 1 && buffer@[0] == '\'');
            }
        }
        false
    }
}

/// The words joined by underscores.
pub fn join_words(words: &Vec<Vec<char>>) -> (text: String)
    ensures
        text@ == joined(Seq::new(words@.len(), |i: int| words@[i]@), 0),
{
    let ghost views = Seq::new(words@.len(), |i: int| words@[i]@);
    let mut text = String::new();
    let mut i: usize = 0;
    while i < words.len()
        invariant
            i <= words@.len(),
            views == Seq::new(words@.len(), |i: int| words@[i]@),
            joined(views, 0) == text@ + joined(views, i as int),
        decreases words@.len() - i,
    {
        let ghost before = text@;
        push_chars(&mut text, &words[i]);
        if i + 1 < words.len() {
            push_char(&mut text, '_');
            assert(text@ + joined(views, i + 1) =~= before + (views[i as int] + seq!['_'] + joined(
                views,
                i + 1,
            )));
        } else {
            assert(text@ + joined(views, i + 1) =~= before + views[i as int]);
        }
        i = i + 1;
    }
    assert(text@ + joined(views, i as int) =~= text@);
    text
}

/// `text` in snake case.
pub fn to_snake_case(text: &str) -> (snake: String)
    ensures
        snake@ == snake_case(text@),
{
    let chars = chars_of(text);
    let mut words: Vec<Vec<char>> = Vec::new();
    let mut start: usize = 0;
    while start < chars.len() && chars[start] == '_'
        invariant
            start <= chars@.len(),
            forall|i: int| 0 <= i < start ==> chars@[i] == '_',
            words@.len() == start,
            forall|i: int| 0 <= i < start ==> (#[trigger] words@[i])@ == Seq::<char>::empty(),
        decreases chars@.len() - start,
    {
        words.push(Vec::new());
        start = start + 1;
    }
    proof {
        lemma_leading(chars@, start as int);
    }
    let ghost all = empty_words(start as int) + words_from(
        chars@,
        start as int,
        Seq::empty(),
        false,
        false,
    );
    let mut buffer: Vec<char> = Vec::new();
    let mut last_upper = false;
    let mut started = false;
    let mut at = start;
    assert(Seq::new(words@.len(), |i: int| words@[i]@) =~= empty_words(start as int));
    while at < chars.len()
        invariant
            start <= at <= chars@.len(),
            !started ==> buffer@.len() == 0,
            all == Seq::new(words@.len(), |i: int| words@[i]@) + words_from(
                chars@,
                at as int,
                buffer@,
                last_upper,
                started,
            ),
        decreases chars@.len() - at,
    {
        let c = chars[at];
        let ghost before = Seq::new(words@.len(), |i: int| words@[i]@);
        let ghost held = buffer@;
        let ghost was_upper = last_upper;
        let ghost was_started = started;
        assert(all == before + words_from(chars@, at as int, held, was_upper, was_started));
        if c == '_' {
            let ghost rest = words_from(chars@, at + 1, Seq::empty(), false, false);
            if started {
                words.push(buffer);
                buffer = Vec::new();
                proof {
                    let now = Seq::new(words@.len(), |i: int| words@[i]@);
                    assert(now =~= before + seq![held]);
                    assert(words_from(chars@, at as int, held, was_upper, was_started) == seq![held]
                        + rest);
                    assert(now + rest =~= before + (seq![held] + rest));
                }
            } else {
                proof {
                    let now = Seq::new(words@.len(), |i: int| words@[i]@);
                    assert(now =~= before);
                    assert(words_from(chars@, at as int, held, was_upper, was_started)
                        == Seq::<Seq<char>>::empty() + rest);
                    assert(before + (Seq::<Seq<char>>::empty() + rest) =~= before + rest);
                    assert(buffer@ =~= Seq::<char>::empty());
                }
            }
            last_upper = false;
            started = false;
        } else {
            let upper = is_uppercase(c);
            let mut lower = to_lowercase(c);
            if buffer.len() > 0 && !is_apostrophe(&buffer) && upper && !last_upper {
                words.push(buffer);
                buffer = lower;
                proof {
                    let rest = words_from(chars@, at + 1, buffer@, upper, true);
                    let now = Seq::new(words@.len(), |i: int| words@[i]@);
                    assert(now =~= before + seq![held]);
                    assert(words_from(chars@, at as int, held, was_upper, was_started) == seq![held]
                        + rest);
                    assert(now + rest =~= before + (seq![held] + rest));
                }
            } else {
                buffer.append(&mut lower);
                proof {
                    let now = Seq::new(words@.len(), |i: int| words@[i]@);
                    assert(now =~= before);
                    assert(buffer@ == held + char_lowercase(c));
                }
            }
            last_upper = upper;
            started = true;
        }
        at = at + 1;
    }
    if started {
        let ghost before = Seq::new(words@.len(), |i: int| words@[i]@);
        let ghost held = buffer@;
        words.push(buffer);
        assert(Seq::new(words@.len(), |i: int| words@[i]@) =~= before + seq![held]);
    } else {
        assert(Seq::new(words@.len(), |i: int| words@[i]@) + Seq::<Seq<char>>::empty()
            =~= Seq::new(words@.len(), |i: int| words@[i]@));
    }
    join_words(&words)
}

/// What kind of type a derive is asked for.
#[derive(Clone, Copy, PartialEq, Eq, Structural, Debug)]
pub enum DataKind {
    Struct,
    Enum,
    Union,
}

/// How the fields of a struct are written.
#[derive(Clone, Copy, PartialEq, Eq, Structural, Debug)]
pub enum FieldKind {
    Named,
    Unnamed,
    Unit,
}

/// A field of the struct that lenses are derived for.
pub struct Field {
    pub name: String,
    /// The type of the field, as it is written.
    pub ty: String,
    /// Whether the field is marked to get no lens.
    pub ignore: bool,
    /// The name that the field is marked to have as a lens, if it is marked.
    pub lens_name_override: Option<String>,
}

/// The type that lenses are derived for.
pub struct DeriveInput {
    pub ident: String,
    pub data: DataKind,
    pub kind: FieldKind,
    pub fields: Vec<Field>,
    /// The names of the type parameters, in their order.
    pub type_params: Vec<String>,
}

/// Why no lenses can be derived for a type.
#[derive(Clone, Copy, PartialEq, Eq, Structural, Debug)]
pub enum DeriveError {
    /// The type is an enum.
    Enum,
    /// The type is a union.
    Union,
    /// The fields of the struct have no names.
    UnnamedFields,
    /// The name of the struct is not written in camel case.
    NotCamelCase,
}

impl DeriveError {
    /// What is said of the error.
    pub open spec fn text(self) -> Seq<char> {
        match self {
            DeriveError::Enum => "Lens implementations cannot be derived from enums"@,
            DeriveError::Union => "Lens implementations cannot be derived from unions"@,
            DeriveError::UnnamedFields =>
                "Lens implementations can only be derived from structs with named fields"@,
            DeriveError::NotCamelCase =>
                "Lens implementations can only be derived from CamelCase types"@,
        }
    }

    /// What is said of the error.
    pub fn message(&self) -> (message: String)
        ensures
            message@ == self.text(),
    {
        match self {
            DeriveError::Enum => "Lens implementations cannot be derived from enums".to_owned(),
            DeriveError::Union => "Lens implementations cannot be derived from unions".to_owned(),
            DeriveError::UnnamedFields => {
                "Lens implementations can only be derived from structs with named fields".to_owned()
            },
            DeriveError::NotCamelCase => {
                "Lens implementations can only be derived from CamelCase types".to_owned()
            },
        }
    }
}

/// The tag of the lens that is derived for the field at place `place` of a
/// model whose type has the tag `model`: the tag of the model, then the
/// place. Lenses for different fields of one model so have different tags.
pub open spec fn field_tag_of(model: u64, place: usize) -> Seq<u64> {
    seq![model, place as u64]
}

/// The tag of the lens that is derived for a model as a whole: the tag of
/// the model alone, which is the tag of no lens for a field.
pub open spec fn root_tag_of(model: u64) -> Seq<u64> {
    seq![model]
}

/// The tag of the lens that is derived for the field at place `place` of a
/// model whose type has the tag `model`.
pub fn field_tag(model: u64, place: usize) -> (tag: Vec<u64>)
    ensures
        tag@ == field_tag_of(model, place),
{
    let mut tag: Vec<u64> = Vec::new();
    tag.push(model);
    tag.push(place as u64);
    assert(tag@ =~= field_tag_of(model, place));
    tag
}

/// The tag of the lens that is derived for a model as a whole.
pub fn root_tag(model: u64) -> (tag: Vec<u64>)
    ensures
        tag@ == root_tag_of(model),
{
    let mut tag: Vec<u64> = Vec::new();
    tag.push(model);
    assert(tag@ =~= root_tag_of(model));
    tag
}

/// The lens that is derived for one field.
pub struct LensDef {
    /// The place of the field among the fields of the struct.
    pub place: usize,
    /// The name of the field, which is the name of the type of the lens.
    pub field: String,
    /// The type of the field, which is the target of the lens.
    pub target: String,
    /// The name of the constant through which the lens is reached.
    pub constant: String,
    /// The words that document the type of the lens.
    pub struct_docs: String,
    /// The words that document the constructor of the lens.
    pub fn_docs: String,
}

/// The lenses that are derived for a struct: one for each field that is not
/// marked to be left out, all in one module. The lens for the struct as a
/// whole, `root`, is derived always and is not listed.
pub struct LensPlan {
    /// The name of the struct, which is the source of every lens.
    pub source: String,
    /// The name of the module that holds the types of the lenses.
    pub module: String,
    /// The words that document the module.
    pub mod_docs: String,
    /// The names of the type parameters that every lens takes over.
    pub type_params: Vec<String>,
    pub lenses: Vec<LensDef>,
}

/// The places of the fields from place `from` on that get a lens.
pub open spec fn kept(fields: Seq<Field>, from: int) -> Seq<int>
    decreases fields.len() - from,
{
    if from < 0 || from >= fields.len() {
        Seq::empty()
    } else if fields[from].ignore {
        kept(fields, from + 1)
    } else {
        seq![from] + kept(fields, from + 1)
    }
}

/// The words that document the type of the lens for `field` of `ty`.
pub open spec fn struct_docs_text(field: Seq<char>, ty: Seq<char>) -> Seq<char> {
    "Lens for the field `"@ + field + "` on [`"@ + ty + "`](super::"@ + ty + ")."@
}

/// The words that document the constructor of the lens for `field` of `ty`.
pub open spec fn fn_docs_text(field: Seq<char>, ty: Seq<char>) -> Seq<char> {
    "Creates a new lens for the field `"@ + field + "` on [`"@ + ty + "`](super::"@ + ty
        + "). Use [`"@ + ty + "::"@ + field + "`](super::"@ + ty + "::"@ + field + ") instead."@
}

/// `def` is the lens for `field`, the field at place `place` of the struct
/// `ty`.
pub open spec fn lens_for(def: LensDef, field: Field, place: int, ty: Seq<char>) -> bool {
    &&& def.place == place
    &&& def.field@ == field.name@
    &&& def.target@ == field.ty@
    &&& def.constant@ == (match field.lens_name_override {
        Some(name) => name@,
        None => field.name@,
    })
    &&& def.struct_docs@ == struct_docs_text(field.name@, ty)
    &&& def.fn_docs@ == fn_docs_text(field.name@, ty)
}

/// Why no lenses can be derived for `input` as a struct, if none can: it is
/// no struct with named fields, or its name is not written in camel case.
pub open spec fn struct_error(input: DeriveInput) -> Option<DeriveError> {
    if input.data != DataKind::Struct || input.kind != FieldKind::Named {
        Some(DeriveError::UnnamedFields)
    } else if !camel_case(input.ident@) {
        Some(DeriveError::NotCamelCase)
    } else {
        None
    }
}

/// Why no lenses can be derived for `input`, if none can.
pub open spec fn derive_error(input: DeriveInput) -> Option<DeriveError> {
    match input.data {
        DataKind::Enum => Some(DeriveError::Enum),
        DataKind::Union => Some(DeriveError::Union),
        DataKind::Struct => struct_error(input),
    }
}

/// `plan` is the plan of the lenses for `input`: the module is named after
/// the struct, in snake case, and there is one lens for each field that is
/// not marked to be left out, in the order of the fields.
pub open spec fn plan_for(plan: LensPlan, input: DeriveInput) -> bool {
    &&& plan.source@ == input.ident@
    &&& plan.module@ == snake_case(input.ident@) + "_derived_lenses"@
    &&& plan.mod_docs@ == "Derived lenses for [`"@ + input.ident@ + "`]."@
    &&& plan.type_params@.len() == input.type_params@.len()
    &&& forall|i: int|
        0 <= i < input.type_params@.len() ==> (#[trigger] plan.type_params@[i])@
            == input.type_params@[i]@
    &&& plan.lenses@.len() == kept(input.fields@, 0).len()
    &&& forall|j: int|
        0 <= j < plan.lenses@.len() ==> lens_for(
            #[trigger] plan.lenses@[j],
            input.fields@[kept(input.fields@, 0)[j]],
            kept(input.fields@, 0)[j],
            input.ident@,
        )
}

/// The places that `kept` lists are places of fields.
pub proof fn lemma_kept_in_range(fields: Seq<Field>, from: int)
    requires
        0 <= from,
    ensures
        forall|j: int|
            0 <= j < kept(fields, from).len() ==> from <= #[trigger] kept(fields, from)[j]
                < fields.len() && !fields[kept(fields, from)[j]].ignore,
    decreases fields.len() - from,
{
    if from < fields.len() {
        lemma_kept_in_range(fields, from + 1);
    }
}

/// The lens for `field`, the field at place `place` of the struct `ty`.
pub fn lens_def(field: &Field, place: usize, ty: &str) -> (def: LensDef)
    ensures
        lens_for(def, *field, place as int, ty@),
{
    let constant = match &field.lens_name_override {
        Some(name) => name.clone(),
        None => field.name.clone(),
    };
    let name = field.name.as_str();
    let mut struct_docs = String::new();
    struct_docs.append("Lens for the field `");
    struct_docs.append(name);
    struct_docs.append("` on [`");
    struct_docs.append(ty);
    struct_docs.append("`](super::");
    struct_docs.append(ty);
    struct_docs.append(").");
    let mut fn_docs = String::new();
    fn_docs.append("Creates a new lens for the field `");
    fn_docs.append(name);
    fn_docs.append("` on [`");
    fn_docs.append(ty);
    fn_docs.append("`](super::");
    fn_docs.append(ty);
    fn_docs.append("). Use [`");
    fn_docs.append(ty);
    fn_docs.append("::");
    fn_docs.append(name);
    fn_docs.append("`](super::");
    fn_docs.append(ty);
    fn_docs.append("::");
    fn_docs.append(name);
    fn_docs.append(") instead.");
    proof {
        assert(struct_docs@ =~= struct_docs_text(field.name@, ty@));
        assert(fn_docs@ =~= fn_docs_text(field.name@, ty@));
    }
    LensDef {
        place,
        field: field.name.clone(),
        target: field.ty.clone(),
        constant,
        struct_docs,
        fn_docs,
    }
}

/// The plan of the lenses for a struct: an error where the type is no
/// struct with named fields, or where its name is not written in camel case.
pub fn derive_struct(input: &DeriveInput) -> (derived: Result<LensPlan, DeriveError>)
    ensures
        match derived {
            Ok(plan) => struct_error(*input) is None && plan_for(plan, *input),
            Err(error) => struct_error(*input) == Some(error),
        },
{
    match input.data {
        DataKind::Struct => {},
        _ => {
            return Err(DeriveError::UnnamedFields);
        },
    }
    if input.kind != FieldKind::Named {
        return Err(DeriveError::UnnamedFields);
    }
    let ident = input.ident.as_str();
    if !is_camel_case(ident) {
        return Err(DeriveError::NotCamelCase);
    }
    let mut module = to_snake_case(ident);
    module.append("_derived_lenses");
    let mut type_params: Vec<String> = Vec::new();
    let mut i: usize = 0;
    while i < input.type_params.len()
        invariant
            i <= input.type_params@.len(),
            type_params@.len() == i,
            forall|k: int| 0 <= k < i ==> (#[trigger] type_params@[k])@ == input.type_params@[k]@,
        decreases input.type_params@.len() - i,
    {
        type_params.push(input.type_params[i].clone());
        i = i + 1;
    }
    let mut lenses: Vec<LensDef> = Vec::new();
    let mut at: usize = 0;
    proof {
        lemma_kept_in_range(input.fields@, 0);
    }
    while at < input.fields.len()
        invariant
            at <= input.fields@.len(),
            ident@ == input.ident@,
            kept(input.fields@, 0) =~= Seq::new(
                lenses@.len(),
                |j: int| kept(input.fields@, 0)[j],
            ) + kept(input.fields@, at as int),
            lenses@.len() <= kept(input.fields@, 0).len(),
            forall|j: int|
                0 <= j < lenses@.len() ==> lens_for(
                    #[trigger] lenses@[j],
                    input.fields@[kept(input.fields@, 0)[j]],
                    kept(input.fields@, 0)[j],
                    input.ident@,
                ),
        decreases input.fields@.len() - at,
    {
        let ghost taken = lenses@.len();
        let ghost all = kept(input.fields@, 0);
        if !input.fields[at].ignore {
            assert(kept(input.fields@, at as int) == seq![at as int] + kept(input.fields@, at + 1));
            assert(all[taken as int] == at);
            lenses.push(lens_def(&input.fields[at], at, ident));
            assert(all =~= Seq::new(lenses@.len(), |j: int| all[j]) + kept(input.fields@, at + 1));
        }
        at = at + 1;
    }
    let mut mod_docs = String::new();
    mod_docs.append("Derived lenses for [`");
    mod_docs.append(ident);
    mod_docs.append("`].");
    Ok(LensPlan { source: input.ident.clone(), module, mod_docs, type_params, lenses })
}

/// The plan of the lenses for a type: an error where the type is no struct,
/// and else as `derive_struct` says.
pub fn derive_lens_impl(input: &DeriveInput) -> (derived: Result<LensPlan, DeriveError>)
    ensures
        match derived {
            Ok(plan) => derive_error(*input) is None && plan_for(plan, *input),
            Err(error) => derive_error(*input) == Some(error),
        },
{
    match input.data {
        DataKind::Struct => derive_struct(input),
        DataKind::Enum => Err(DeriveError::Enum),
        DataKind::Union => Err(DeriveError::Union),
    }
}

} // verus!
