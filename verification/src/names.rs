//! Names of declarations and types, and the small vocabulary of searches over
//! lists of names that the rest of the crate is phrased in.

use vstd::prelude::*;

verus! {

/// The names held by a list of strings.
pub open spec fn names_view(v: Seq<String>) -> Seq<Seq<char>> {
    v.map_values(|s: String| s@)
}

/// `i` is the position of the first occurrence of `n` in `names`.
pub open spec fn is_first_index(names: Seq<Seq<char>>, n: Seq<char>, i: int) -> bool {
    &&& 0 <= i < names.len()
    &&& names[i] == n
    &&& forall|j: int| 0 <= j < i ==> names[j] != n
}

/// The position of the first occurrence of `n` in `names`, if there is one.
pub open spec fn first_index(names: Seq<Seq<char>>, n: Seq<char>) -> Option<int>
    decreases names.len(),
{
    if names.len() == 0 {
        None
    } else {
        match first_index(names.drop_last(), n) {
            Some(i) => Some(i),
            None => if names.last() == n {
                Some(names.len() - 1)
            } else {
                None
            },
        }
    }
}

/// `first_index` finds the first occurrence, and finds one whenever there is any.
pub proof fn lemma_first_index(names: Seq<Seq<char>>, n: Seq<char>)
    ensures
        match first_index(names, n) {
            Some(i) => is_first_index(names, n, i),
            None => !names.contains(n),
        },
    decreases names.len(),
{
    if names.len() > 0 {
        let front = names.drop_last();
        lemma_first_index(front, n);
        match first_index(front, n) {
            Some(i) => {
                assert(front[i] == names[i]);
                assert forall|j: int| 0 <= j < i implies names[j] != n by {
                    assert(front[j] == names[j]);
                }
            },
            None => {
                assert forall|j: int| 0 <= j < names.len() - 1 implies names[j] != n by {
                    assert(front[j] == names[j]);
                    assert(front.contains(front[j]));
                }
                if names.last() != n {
                    assert forall|j: int| 0 <= j < names.len() implies names[j] != n by {
                        if j < names.len() - 1 {
                            assert(front[j] == names[j]);
                        }
                    }
                }
            },
        }
    }
}

/// Any position that satisfies `is_first_index` is the one `first_index` finds.
pub proof fn lemma_first_index_unique(names: Seq<Seq<char>>, n: Seq<char>, i: int)
    requires
        is_first_index(names, n, i),
    ensures
        first_index(names, n) == Some(i),
{
    lemma_first_index(names, n);
    match first_index(names, n) {
        Some(k) => {
            if k < i {
                assert(names[k] != n);
            }
            if i < k {
                assert(names[i] != n);
            }
        },
        None => {
            assert(names.contains(names[i]));
        },
    }
}

/// Whether two strings spell the same name.
pub fn same_name(a: &String, b: &String) -> (r: bool)
    ensures
        r == (a@ == b@),
{
    *a == *b
}

/// Position of the first occurrence of `n` in `v`.
pub fn position_of_name(v: &Vec<String>, n: &String) -> (r: Option<usize>)
    ensures
        match r {
            Some(i) => is_first_index(names_view(v@), n@, i as int),
            None => !names_view(v@).contains(n@),
        },
{
    let mut i: usize = 0;
    while i < v.len()
        invariant
            i <= v.len(),
            forall|j: int| 0 <= j < i ==> names_view(v@)[j] != n@,
        decreases v.len() - i,
    {
        if same_name(&v[i], n) {
            return Some(i);
        }
        i += 1;
    }
    None
}

/// Whether `n` occurs in `v`.
pub fn contains_name(v: &Vec<String>, n: &String) -> (r: bool)
    ensures
        r == names_view(v@).contains(n@),
{
    position_of_name(v, n).is_some()
}

/// A fresh list holding the same names in the same order.
pub fn clone_names(v: &Vec<String>) -> (r: Vec<String>)
    ensures
        names_view(r@) == names_view(v@),
{
    let mut r: Vec<String> = Vec::new();
    let mut i: usize = 0;
    while i < v.len()
        invariant
            i <= v.len(),
            r@.len() == i,
            forall|j: int| 0 <= j < i ==> r@[j]@ == v@[j]@,
        decreases v.len() - i,
    {
        r.push(v[i].clone());
        i += 1;
    }
    assert(names_view(r@) =~= names_view(v@));
    r
}

/// The separator between a namespace path and the name declared inside it.
pub open spec fn scope_separator() -> Seq<char> {
    "::"@
}

/// The identifier of `name` declared inside the namespace path `prefix`.
/// The empty prefix stands for the global namespace.
pub open spec fn qualify(prefix: Seq<char>, name: Seq<char>) -> Seq<char> {
    if prefix.len() == 0 {
        name
    } else {
        prefix + scope_separator() + name
    }
}

/// Builds the identifier of `name` declared inside `prefix`.
pub fn qualified(prefix: &String, name: &String) -> (r: String)
    ensures
        r@ == qualify(prefix@, name@),
{
    if prefix.as_str().is_empty() {
        name.clone()
    } else {
        let mut r = prefix.clone();
        r.append("::");
        r.append(name.as_str());
        r
    }
}

/// The types every target understands without a declaration of their own:
/// booleans, characters, and the sized and C integer and floating types.
pub open spec fn is_primitive_name(n: Seq<char>) -> bool {
    ||| n == "bool"@
    ||| n == "char"@
    ||| n == "short"@
    ||| n == "int"@
    ||| n == "long"@
    ||| n == "float"@
    ||| n == "double"@
    ||| n == "i8"@
    ||| n == "i16"@
    ||| n == "i32"@
    ||| n == "i64"@
    ||| n == "u8"@
    ||| n == "u16"@
    ||| n == "u32"@
    ||| n == "u64"@
    ||| n == "usize"@
}

fn spells(n: &String, literal: &str) -> (r: bool)
    ensures
        r == (n@ == literal@),
{
    let l = String::from_str(literal);
    same_name(n, &l)
}

/// Whether `n` names a primitive type.
pub fn is_primitive(n: &String) -> (r: bool)
    ensures
        r == is_primitive_name(n@),
{
    spells(n, "bool") || spells(n, "char") || spells(n, "short") || spells(n, "int") || spells(
        n,
        "long",
    ) || spells(n, "float") || spells(n, "double") || spells(n, "i8") || spells(n, "i16")
        || spells(n, "i32") || spells(n, "i64") || spells(n, "u8") || spells(n, "u16") || spells(
        n,
        "u32",
    ) || spells(n, "u64") || spells(n, "usize")
}

/// What the generator calls a primitive type of C, and what this crate calls it.
pub open spec fn c_alias(n: Seq<char>) -> Option<Seq<char>> {
    if n == "c_char"@ {
        Some("char"@)
    } else if n == "c_short"@ {
        Some("short"@)
    } else if n == "c_int"@ {
        Some("int"@)
    } else if n == "c_long"@ {
        Some("long"@)
    } else if n == "c_float"@ {
        Some("float"@)
    } else if n == "c_double"@ {
        Some("double"@)
    } else {
        None
    }
}

/// The segments of a path, put together with the separator between them.
pub open spec fn joined(segments: Seq<Seq<char>>) -> Seq<char>
    decreases segments.len(),
{
    if segments.len() == 0 {
        Seq::empty()
    } else {
        qualify(joined(segments.drop_last()), segments.last())
    }
}

/// The name of the grouping that the generator wraps every declaration in,
/// and with it the first segment of every path that the generator writes.
pub open spec fn root_name() -> Seq<char> {
    "root"@
}

/// The name of the type that a path of the generator stands for: the
/// primitive type, where the last segment is the generator's name for one;
/// else the path without the root segment in front.
pub open spec fn canonical_type_name(segments: Seq<Seq<char>>) -> Seq<char> {
    if segments.len() > 0 && c_alias(segments.last()) is Some {
        c_alias(segments.last())->Some_0
    } else if segments.len() > 0 && segments[0] == root_name() {
        joined(segments.skip(1))
    } else {
        joined(segments)
    }
}

fn alias_of(n: &String) -> (r: Option<String>)
    ensures
        match r {
            Some(p) => c_alias(n@) == Some(p@),
            None => c_alias(n@) is None,
        },
{
    if spells(n, "c_char") {
        Some(String::from_str("char"))
    } else if spells(n, "c_short") {
        Some(String::from_str("short"))
    } else if spells(n, "c_int") {
        Some(String::from_str("int"))
    } else if spells(n, "c_long") {
        Some(String::from_str("long"))
    } else if spells(n, "c_float") {
        Some(String::from_str("float"))
    } else if spells(n, "c_double") {
        Some(String::from_str("double"))
    } else {
        None
    }
}

/// Puts the segments `segments[from..]` together.
fn join_from(segments: &Vec<String>, from: usize) -> (r: String)
    requires
        from <= segments@.len(),
    ensures
        r@ == joined(names_view(segments@).skip(from as int)),
{
    let ghost tail = names_view(segments@).skip(from as int);
    let mut r = String::new();
    let mut i: usize = from;
    assert(tail.take(0) =~= Seq::<Seq<char>>::empty());
    while i < segments.len()
        invariant
            from <= i <= segments.len(),
            tail == names_view(segments@).skip(from as int),
            r@ == joined(tail.take(i - from)),
        decreases segments.len() - i,
    {
        proof {
            assert(tail.take(i + 1 - from).drop_last() =~= tail.take(i - from));
            assert(tail.take(i + 1 - from).last() == segments@[i as int]@);
        }
        r = qualified(&r, &segments[i]);
        i += 1;
    }
    assert(tail.take(segments.len() - from) =~= tail);
    r
}

/// The name of the type that the path `segments` stands for.
pub fn type_name_from_path(segments: &Vec<String>) -> (r: String)
    ensures
        r@ == canonical_type_name(names_view(segments@)),
{
    let n = segments.len();
    if n > 0 {
        match alias_of(&segments[n - 1]) {
            Some(p) => {
                return p;
            },
            None => {},
        }
        if spells(&segments[0], "root") {
            return join_from(segments, 1);
        }
    }
    let r = join_from(segments, 0);
    assert(names_view(segments@).skip(0) =~= names_view(segments@));
    r
}

} // verus!
