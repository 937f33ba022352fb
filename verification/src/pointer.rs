//! Pointers into a value tree, as in RFC 6901: the tokens of a pointer, the
//! node that they lead to, and the tree with another node in its place.

use crate::path::SEPARATOR;
use crate::text::{chars_of, rows, split, split_chars, string_of, texts};
use crate::tree::{lookup, position, Tree};
use crate::value::Value;
use vstd::prelude::*;

verus! {

/// `s` with every pair `first second` replaced by `with`, scanning from the left.
pub open spec fn replace_pair(s: Seq<char>, first: char, second: char, with: char) -> Seq<char>
    decreases s.len(),
{
    if s.len() == 0 {
        s
    } else if s.len() >= 2 && s[0] == first && s[1] == second {
        seq![with] + replace_pair(s.skip(2), first, second, with)
    } else {
        seq![s[0]] + replace_pair(s.skip(1), first, second, with)
    }
}

/// The key that a pointer token stands for: `~1` is a separator, then `~0` a tilde.
pub open spec fn unescape(token: Seq<char>) -> Seq<char> {
    replace_pair(replace_pair(token, '~', '1', SEPARATOR), '~', '0', '~')
}

/// Whether `c` is one of the digits `0` to `9`.
pub open spec fn is_digit(c: char) -> bool {
    '0' <= c <= '9'
}

/// The number that the decimal digits `digits` write.
pub open spec fn decimal(digits: Seq<char>) -> nat
    decreases digits.len(),
{
    if digits.len() == 0 {
        0
    } else {
        (decimal(digits.drop_last()) * 10 + (digits.last() as int - '0' as int)) as nat
    }
}

/// The array index that a token writes: decimal digits, without a sign and
/// without a leading zero (but `0` itself).
pub open spec fn array_index(token: Seq<char>) -> Option<nat> {
    if token.len() >= 1 && (forall|i: int| 0 <= i < token.len() ==> is_digit(#[trigger] token[i]))
        && (token[0] != '0' || token.len() == 1) {
        Some(decimal(token))
    } else {
        None
    }
}

/// The tokens of a pointer. The empty pointer has none and addresses the whole
/// tree. Any other pointer starts with a separator; each separator starts a
/// token, which is unescaped.
pub open spec fn tokens_of(pointer: Seq<char>) -> Option<Seq<Seq<char>>> {
    if pointer.len() == 0 {
        Some(Seq::empty())
    } else if pointer[0] != SEPARATOR {
        None
    } else {
        let raw = split(pointer, SEPARATOR).skip(1);
        Some(Seq::new(raw.len(), |i: int| unescape(raw[i])))
    }
}

/// The child of `tree` that `token` names: the field of that key in an object,
/// the item at that index in an array.
pub open spec fn child(tree: Tree, token: Seq<char>) -> Option<Tree> {
    match tree {
        Tree::Object(fields) => lookup(fields, token),
        Tree::Array(items) => match array_index(token) {
            Some(i) => if i < items.len() {
                Some(items[i as int])
            } else {
                None
            },
            None => None,
        },
        _ => None,
    }
}

/// The node that `tokens` lead to from `tree`, one child per token.
pub open spec fn resolve(tree: Tree, tokens: Seq<Seq<char>>) -> Option<Tree>
    decreases tokens.len(),
{
    if tokens.len() == 0 {
        Some(tree)
    } else {
        match child(tree, tokens[0]) {
            Some(next) => resolve(next, tokens.skip(1)),
            None => None,
        }
    }
}

/// `tree` with `new` in the place of the child that `token` names; `tree`
/// itself where it has no such child.
pub open spec fn with_child(tree: Tree, token: Seq<char>, new: Tree) -> Tree {
    match tree {
        Tree::Object(fields) => match position(fields, token) {
            Some(i) => Tree::Object(fields.update(i, (fields[i].0, new))),
            None => tree,
        },
        Tree::Array(items) => match array_index(token) {
            Some(i) => if i < items.len() {
                Tree::Array(items.update(i as int, new))
            } else {
                tree
            },
            None => tree,
        },
        _ => tree,
    }
}

/// `tree` with `new` in the place of the node that `tokens` lead to; `tree`
/// itself where they lead to none.
pub open spec fn graft(tree: Tree, tokens: Seq<Seq<char>>, new: Tree) -> Tree
    decreases tokens.len(),
{
    if tokens.len() == 0 {
        new
    } else {
        match child(tree, tokens[0]) {
            Some(next) => with_child(tree, tokens[0], graft(next, tokens.skip(1), new)),
            None => tree,
        }
    }
}

/// The node of `tree` that `pointer` addresses.
pub open spec fn locate(tree: Tree, pointer: Seq<char>) -> Option<Tree> {
    match tokens_of(pointer) {
        Some(tokens) => resolve(tree, tokens),
        None => None,
    }
}

/// Putting a node in the place of a child makes it that child.
pub proof fn lemma_with_child(tree: Tree, token: Seq<char>, new: Tree)
    requires
        child(tree, token) is Some,
    ensures
        child(with_child(tree, token, new), token) == Some(new),
{
    match tree {
        Tree::Object(fields) => {
            crate::tree::lemma_position(fields, token);
            let i = position(fields, token)->0;
            crate::tree::lemma_position_first(fields.update(i, (fields[i].0, new)), token, i);
        },
        _ => {},
    }
}

/// What is grafted at the end of a path is what the path then leads to.
pub proof fn lemma_graft(tree: Tree, tokens: Seq<Seq<char>>, new: Tree)
    requires
        resolve(tree, tokens) is Some,
    ensures
        resolve(graft(tree, tokens, new), tokens) == Some(new),
    decreases tokens.len(),
{
    if tokens.len() > 0 {
        let next = child(tree, tokens[0])->0;
        lemma_graft(next, tokens.skip(1), new);
        lemma_with_child(tree, tokens[0], graft(next, tokens.skip(1), new));
    }
}

/// Replaces in `s` every pair `first second` by `with`.
fn replace_pair_chars(s: &Vec<char>, first: char, second: char, with: char) -> (r: Vec<char>)
    ensures
        r@ == replace_pair(s@, first, second, with),
{
    let mut out: Vec<char> = Vec::new();
    let mut i: usize = 0;
    assert(s@.skip(0) =~= s@);
    while i < s.len()
        invariant
            i <= s.len(),
            out@ + replace_pair(s@.skip(i as int), first, second, with) == replace_pair(
                s@,
                first,
                second,
                with,
            ),
        decreases s.len() - i,
    {
        let ghost rest = s@.skip(i as int);
        if s[i] == first && i + 1 < s.len() && s[i + 1] == second {
            assert(rest.skip(2) =~= s@.skip(i + 2));
            out.push(with);
            assert(out@ + replace_pair(s@.skip(i + 2), first, second, with) =~= replace_pair(
                s@,
                first,
                second,
                with,
            ));
            i += 2;
        } else {
            assert(rest.skip(1) =~= s@.skip(i + 1));
            out.push(s[i]);
            assert(out@ + replace_pair(s@.skip(i + 1), first, second, with) =~= replace_pair(
                s@,
                first,
                second,
                with,
            ));
            i += 1;
        }
    }
    out
}

/// The tokens of `pointer`, or `None` where it is no pointer.
pub fn pointer_tokens(pointer: &str) -> (r: Option<Vec<String>>)
    ensures
        match r {
            Some(tokens) => tokens_of(pointer@) == Some(texts(tokens@)),
            None => tokens_of(pointer@) is None,
        },
{
    let chars = chars_of(pointer);
    let mut tokens: Vec<String> = Vec::new();
    if chars.len() == 0 {
        return Some(tokens);
    }
    if chars[0] != SEPARATOR {
        return None;
    }
    let segments = split_chars(&chars, SEPARATOR);
    let ghost raw = split(pointer@, SEPARATOR).skip(1);
    let ghost wanted = Seq::new(raw.len(), |i: int| unescape(raw[i]));
    proof {
        crate::text::lemma_split_join(pointer@, SEPARATOR);
    }
    let mut i: usize = 1;
    while i < segments.len()
        invariant
            1 <= i <= segments.len(),
            rows(segments@) == split(pointer@, SEPARATOR),
            raw == split(pointer@, SEPARATOR).skip(1),
            wanted == Seq::new(raw.len(), |i: int| unescape(raw[i])),
            segments.len() == raw.len() + 1,
            tokens.len() == i - 1,
            texts(tokens@) == wanted.take(i - 1),
        decreases segments.len() - i,
    {
        let slashes = replace_pair_chars(&segments[i], '~', '1', SEPARATOR);
        let plain = replace_pair_chars(&slashes, '~', '0', '~');
        let token = string_of(&plain);
        let ghost before = tokens@;
        tokens.push(token);
        assert forall|j: int| 0 <= j < i implies texts(tokens@)[j] == wanted[j] by {
            if j < i - 1 {
                assert(texts(before)[j] == wanted.take(i - 1)[j]);
            }
        }
        i += 1;
    }
    Some(tokens)
}

/// Digits written in front of a number do not make it smaller.
proof fn lemma_decimal_grows(digits: Seq<char>, k: int)
    requires
        0 <= k <= digits.len(),
        forall|i: int| 0 <= i < digits.len() ==> is_digit(#[trigger] digits[i]),
    ensures
        decimal(digits.take(k)) <= decimal(digits),
    decreases digits.len() - k,
{
    if k < digits.len() {
        lemma_decimal_grows(digits, k + 1);
        assert(digits.take(k + 1).drop_last() =~= digits.take(k));
    } else {
        assert(digits.take(k) =~= digits);
    }
}

/// The index below `len` that `token` writes, if it writes one.
pub fn parse_index(token: &str, len: usize) -> (r: Option<usize>)
    ensures
        match r {
            Some(i) => i < len && array_index(token@) == Some(i as nat),
            None => array_index(token@) matches Some(n) ==> n >= len,
        },
{
    let digits = chars_of(token);
    let n = digits.len();
    if n == 0 {
        return None;
    }
    if digits[0] == '0' && n != 1 {
        return None;
    }
    let mut value: usize = 0;
    let mut i: usize = 0;
    while i < n
        invariant
            i <= n == digits.len(),
            digits@ == token@,
            forall|j: int| 0 <= j < i ==> is_digit(#[trigger] digits@[j]),
            value == decimal(digits@.take(i as int)),
            i > 0 ==> value < len,
        decreases n - i,
    {
        let c = digits[i];
        if !('0' <= c && c <= '9') {
            return None;
        }
        let digit = (c as u32 - '0' as u32) as u128;
        let next: u128 = value as u128 * 10 + digit;
        proof {
            assert(digits@.take(i + 1).drop_last() =~= digits@.take(i as int));
        }
        if next >= len as u128 {
            proof {
                if array_index(token@) is Some {
                    lemma_decimal_grows(digits@, i + 1);
                }
            }
            return None;
        }
        value = next as usize;
        i += 1;
    }
    assert(digits@.take(n as int) =~= digits@);
    Some(value)
}

impl Value {
    /// The child that `token` names: a field of an object, an item of an array.
    pub fn child(&self, token: &str) -> (r: Option<&Value>)
        ensures
            match r {
                Some(next) => child(self@, token@) == Some(next@),
                None => child(self@, token@) is None,
            },
    {
        match self {
            Value::Object(object) => object.get(token),
            Value::Array(items) => match parse_index(token, items.len()) {
                Some(i) => Some(&items[i]),
                None => None,
            },
            _ => None,
        }
    }

    /// The node that `pointer` addresses.
    pub fn pointer(&self, pointer: &str) -> (r: Option<&Value>)
        ensures
            match r {
                Some(node) => locate(self@, pointer@) == Some(node@),
                None => locate(self@, pointer@) is None,
            },
    {
        let tokens = match pointer_tokens(pointer) {
            Some(tokens) => tokens,
            None => {
                return None;
            },
        };
        let mut current: &Value = self;
        let mut i: usize = 0;
        assert(texts(tokens@).skip(0) =~= texts(tokens@));
        while i < tokens.len()
            invariant
                i <= tokens.len(),
                tokens_of(pointer@) == Some(texts(tokens@)),
                resolve(current@, texts(tokens@).skip(i as int)) == resolve(
                    self@,
                    texts(tokens@),
                ),
            decreases tokens.len() - i,
        {
            assert(texts(tokens@).skip(i as int).skip(1) =~= texts(tokens@).skip(i + 1));
            match current.child(tokens[i].as_str()) {
                Some(next) => {
                    current = next;
                },
                None => {
                    return None;
                },
            }
            i += 1;
        }
        Some(current)
    }
}

} // verus!
