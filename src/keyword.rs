use vstd::prelude::*;

verus! {

/// A reserved word of the language.
#[derive(Debug, PartialEq, Eq, Structural, Clone, Copy)]
pub enum Keyword {
    Let,
    Fun,
    True,
    False,
    If,
    Else,
}

/// The keyword that `s` spells, if any.
pub open spec fn keyword_of(s: Seq<char>) -> Option<Keyword> {
    if s == seq!['l', 'e', 't'] {
        Some(Keyword::Let)
    } else if s == seq!['f', 'u', 'n'] {
        Some(Keyword::Fun)
    } else if s == seq!['t', 'r', 'u', 'e'] {
        Some(Keyword::True)
    } else if s == seq!['f', 'a', 'l', 's', 'e'] {
        Some(Keyword::False)
    } else if s == seq!['i', 'f'] {
        Some(Keyword::If)
    } else if s == seq!['e', 'l', 's', 'e'] {
        Some(Keyword::Else)
    } else {
        None
    }
}

/// The keywords with their spellings.
pub fn keywords() -> (r: Vec<(String, Keyword)>)
    ensures
        r@.len() == 6,
        forall|i: int| 0 <= i < 6 ==> keyword_of((#[trigger] r@[i]).0@) == Some(r@[i].1),
        r@.map_values(|p: (String, Keyword)| p.1) == seq![
            Keyword::Let,
            Keyword::Fun,
            Keyword::True,
            Keyword::False,
            Keyword::If,
            Keyword::Else,
        ],
{
    proof {
        reveal_strlit("let");
        reveal_strlit("fun");
        reveal_strlit("true");
        reveal_strlit("false");
        reveal_strlit("if");
        reveal_strlit("else");
    }
    let r = vec![
        ("let".to_string(), Keyword::Let),
        ("fun".to_string(), Keyword::Fun),
        ("true".to_string(), Keyword::True),
        ("false".to_string(), Keyword::False),
        ("if".to_string(), Keyword::If),
        ("else".to_string(), Keyword::Else),
    ];
    assert(seq!['l', 'e', 't'] =~= "let"@);
    assert(seq!['f', 'u', 'n'] =~= "fun"@);
    assert(seq!['t', 'r', 'u', 'e'] =~= "true"@);
    assert(seq!['f', 'a', 'l', 's', 'e'] =~= "false"@);
    assert(seq!['i', 'f'] =~= "if"@);
    assert(seq!['e', 'l', 's', 'e'] =~= "else"@);
    assert(r@.map_values(|p: (String, Keyword)| p.1) =~= seq![
        Keyword::Let,
        Keyword::Fun,
        Keyword::True,
        Keyword::False,
        Keyword::If,
        Keyword::Else,
    ]);
    r
}

/// The keyword that `s` spells, if any.
pub fn keyword_lookup(s: &Vec<char>) -> (r: Option<Keyword>)
    ensures
        r == keyword_of(s@),
{
    let n = s.len();
    if n == 3 && s[0] == 'l' && s[1] == 'e' && s[2] == 't' {
        assert(s@ =~= seq!['l', 'e', 't']);
        Some(Keyword::Let)
    } else if n == 3 && s[0] == 'f' && s[1] == 'u' && s[2] == 'n' {
        assert(s@ =~= seq!['f', 'u', 'n']);
        Some(Keyword::Fun)
    } else if n == 4 && s[0] == 't' && s[1] == 'r' && s[2] == 'u' && s[3] == 'e' {
        assert(s@ =~= seq!['t', 'r', 'u', 'e']);
        Some(Keyword::True)
    } else if n == 5 && s[0] == 'f' && s[1] == 'a' && s[2] == 'l' && s[3] == 's' && s[4] == 'e' {
        assert(s@ =~= seq!['f', 'a', 'l', 's', 'e']);
        Some(Keyword::False)
    } else if n == 2 && s[0] == 'i' && s[1] == 'f' {
        assert(s@ =~= seq!['i', 'f']);
        Some(Keyword::If)
    } else if n == 4 && s[0] == 'e' && s[1] == 'l' && s[2] == 's' && s[3] == 'e' {
        assert(s@ =~= seq!['e', 'l', 's', 'e']);
        Some(Keyword::Else)
    } else {
        None
    }
}

} // verus!
