use vstd::prelude::*;
use crate::error::DerivationError;

verus! {

/// The words of a text, split at whitespace.
pub uninterp spec fn words_of(s: Seq<char>) -> Seq<Seq<char>>;

/// Relies on `str::split_whitespace`: the words of a text, in order, which depend
/// on its characters alone; an empty text has none.
#[verifier::external_body]
pub(crate) fn split_words(s: &str) -> (r: Vec<String>)
    ensures
        r@.map_values(|w: String| w@) == words_of(s@),
        s@.len() == 0 ==> r@.len() == 0,
{
    s.split_whitespace().map(String::from).collect()
}

/// The views of a sequence of strings.
pub open spec fn texts(v: Seq<String>) -> Seq<Seq<char>> {
    v.map_values(|w: String| w@)
}

/// `n` words "a" followed by `n` words "b".
pub open spec fn an_bn_words(n: nat) -> Seq<Seq<char>> {
    Seq::new(2 * n, |i: int| if i < n { seq!['a'] } else { seq!['b'] })
}

/// Words joined by single spaces.
pub open spec fn join_words(ws: Seq<Seq<char>>) -> Seq<char>
    decreases ws.len(),
{
    if ws.len() == 0 {
        Seq::empty()
    } else if ws.len() == 1 {
        ws[0]
    } else {
        join_words(ws.drop_last()) + seq![' '] + ws.last()
    }
}

/// The words are some number of "a" followed by as many "b".
pub open spec fn is_an_bn(ws: Seq<Seq<char>>) -> bool {
    &&& ws.len() % 2 == 0
    &&& forall|i: int|
        0 <= i < ws.len() ==> #[trigger] ws[i] == (if i < ws.len() / 2 {
            seq!['a']
        } else {
            seq!['b']
        })
}

/// Whether two texts are equal.
pub(crate) fn same_text(s: &str, t: &str) -> (r: bool)
    ensures
        r == (s@ == t@),
{
    let n = s.unicode_len();
    if n != t.unicode_len() {
        return false;
    }
    let mut i: usize = 0;
    while i < n
        invariant
            n == s@.len() == t@.len(),
            i <= n,
            forall|k: int| 0 <= k < i ==> s@[k] == t@[k],
        decreases n - i,
    {
        if s.get_char(i) != t.get_char(i) {
            return false;
        }
        i += 1;
    }
    proof {
        assert(s@ =~= t@);
    }
    true
}

/// What the literals of this module hold.
proof fn lemma_literals()
    ensures
        "a"@ == seq!['a'],
        "b"@ == seq!['b'],
        " "@ == seq![' '],
        "an_bn"@ == an_bn_name(),
{
    reveal_strlit("a");
    reveal_strlit("b");
    reveal_strlit(" ");
    reveal_strlit("an_bn");
    assert("a"@ =~= seq!['a']);
    assert("b"@ =~= seq!['b']);
    assert(" "@ =~= seq![' ']);
    assert("an_bn"@ =~= an_bn_name());
}

/// Joining one more word adds a space (unless it is the first) and the word.
proof fn lemma_join_take(ws: Seq<Seq<char>>, k: int)
    requires
        0 <= k < ws.len(),
    ensures
        join_words(ws.take(k + 1)) == if k == 0 {
            ws[0]
        } else {
            join_words(ws.take(k)) + seq![' '] + ws[k]
        },
{
    assert(ws.take(k + 1).drop_last() =~= ws.take(k));
}

/// The text "a a ... b b" with `n` of each letter; empty for zero.
pub fn generate_an_bn(n: usize) -> (r: String)
    ensures
        r@ == join_words(an_bn_words(n as nat)),
{
    let ghost ws = an_bn_words(n as nat);
    let mut s = String::new();
    let mut i: usize = 0;
    while i < n
        invariant
            ws == an_bn_words(n as nat),
            i <= n,
            s@ == join_words(ws.take(i as int)),
        decreases n - i,
    {
        proof {
            lemma_join_take(ws, i as int);
            lemma_literals();
        }
        if i > 0 {
            s.append(" ");
        }
        s.append("a");
        i += 1;
    }
    let mut j: usize = 0;
    while j < n
        invariant
            ws == an_bn_words(n as nat),
            j <= n,
            s@ == join_words(ws.take(n + j)),
        decreases n - j,
    {
        proof {
            lemma_join_take(ws, n + j);
            lemma_literals();
        }
        s.append(" ");
        s.append("b");
        j += 1;
    }
    proof {
        assert(ws.take(2 * n) =~= ws);
    }
    s
}

/// Whether the words are `n` times "a" followed by `n` times "b" for some `n`.
pub fn is_an_bn_tokens(tokens: &Vec<String>) -> (r: bool)
    ensures
        r == is_an_bn(texts(tokens@)),
{
    let ghost ws = texts(tokens@);
    let len = tokens.len();
    let n = len / 2;
    if len != 2 * n {
        return false;
    }
    let mut i: usize = 0;
    while i < len
        invariant
            ws == texts(tokens@),
            len == tokens@.len() == 2 * n,
            i <= len,
            forall|k: int|
                0 <= k < i ==> #[trigger] ws[k] == (if k < n {
                    seq!['a']
                } else {
                    seq!['b']
                }),
        decreases len - i,
    {
        let want = if i < n {
            "a"
        } else {
            "b"
        };
        proof {
            lemma_literals();
        }
        if !same_text(tokens[i].as_str(), want) {
            proof {
                assert(ws[i as int] == tokens@[i as int]@);
                assert(ws.len() / 2 == n);
                assert(ws[i as int] != (if i < ws.len() / 2 {
                    seq!['a']
                } else {
                    seq!['b']
                }));
            }
            return false;
        }
        i += 1;
    }
    true
}

/// Whether the text's words are `n` times "a" followed by `n` times "b" for some `n`.
pub fn is_an_bn_pattern(s: &str) -> (r: bool)
    ensures
        r == is_an_bn(words_of(s@)),
{
    let tokens = split_words(s);
    is_an_bn_tokens(&tokens)
}

/// The one pattern name that generation supports.
pub open spec fn an_bn_name() -> Seq<char> {
    seq!['a', 'n', '_', 'b', 'n']
}

/// Generates the text of a named pattern with parameter `n`.
pub fn generate_pattern(pattern: &str, n: usize) -> (r: Result<String, DerivationError>)
    ensures
        pattern@ == an_bn_name() ==> r is Ok && r->Ok_0@ == join_words(an_bn_words(n as nat)),
        pattern@ != an_bn_name() ==> r == Err::<String, DerivationError>(
            DerivationError::InvalidOperation,
        ),
{
    proof {
        lemma_literals();
    }
    if same_text(pattern, "an_bn") {
        Ok(generate_an_bn(n))
    } else {
        Err(DerivationError::InvalidOperation)
    }
}

/// Whether the named pattern can be generated.
pub fn can_generate(pattern: &str, n: usize) -> (r: bool)
    ensures
        r == (pattern@ == an_bn_name()),
{
    generate_pattern(pattern, n).is_ok()
}

/// Every generated text is the space-joined form of words that `is_an_bn` accepts.
pub proof fn lemma_generated_is_an_bn(n: nat)
    ensures
        is_an_bn(an_bn_words(n)),
{
}

/// The recogniser accepts exactly the word sequences "a"^n "b"^n, for a shared `n`.
pub proof fn lemma_an_bn_exact(ws: Seq<Seq<char>>)
    ensures
        is_an_bn(ws) <==> exists|n: nat| ws == #[trigger] an_bn_words(n),
{
    if is_an_bn(ws) {
        let n = (ws.len() / 2) as nat;
        assert(ws =~= an_bn_words(n));
    }
    if exists|n: nat| ws == #[trigger] an_bn_words(n) {
        let n = choose|n: nat| ws == #[trigger] an_bn_words(n);
        assert(ws.len() / 2 == n);
    }
}

} // verus!
