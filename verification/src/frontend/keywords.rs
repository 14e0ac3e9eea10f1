use vstd::prelude::*;
use vstd::string::*;
use crate::frontend::token::TokenType;

verus! {

/// The SQL keywords, each with the kind of token it stands for.
pub open spec fn keyword_entries() -> Seq<(Seq<char>, TokenType)> {
    seq![
        ("SELECT"@, TokenType::Select),
        ("FROM"@, TokenType::From),
        ("WHERE"@, TokenType::Where),
        ("INSERT"@, TokenType::Insert),
        ("INTO"@, TokenType::Into),
        ("VALUES"@, TokenType::Values),
        ("CREATE"@, TokenType::Create),
        ("TABLE"@, TokenType::Table),
        ("DELETE"@, TokenType::Delete),
        ("UPDATE"@, TokenType::Update),
        ("SET"@, TokenType::SetKeyword),
        ("INT"@, TokenType::Int),
        ("AND"@, TokenType::And),
        ("OR"@, TokenType::Or),
    ]
}

/// The operators and symbols, each with the kind of token it stands for.
pub open spec fn operator_entries() -> Seq<(Seq<char>, TokenType)> {
    seq![
        ("="@, TokenType::Equal),
        ("!="@, TokenType::NotEqual),
        ("<"@, TokenType::LessThan),
        (">"@, TokenType::GreaterThan),
        ("<="@, TokenType::LessThanEqual),
        (">="@, TokenType::GreaterThanEqual),
        ("*"@, TokenType::Asterisk),
        (","@, TokenType::Comma),
        (";"@, TokenType::Semicolon),
        ("("@, TokenType::LeftParen),
        (")"@, TokenType::RightParen),
    ]
}

/// The kind that a table gives to `key`, if the table holds it.
pub open spec fn lookup(entries: Seq<(Seq<char>, TokenType)>, key: Seq<char>) -> Option<TokenType>
    decreases entries.len(),
{
    if entries.len() == 0 {
        None
    } else if entries[0].0 == key {
        Some(entries[0].1)
    } else {
        lookup(entries.drop_first(), key)
    }
}

/// No key occurs twice in the table, so that it is a map from keys to kinds.
pub open spec fn keys_distinct(entries: Seq<(Seq<char>, TokenType)>) -> bool {
    forall|i: int, j: int|
        0 <= i < j < entries.len() ==> #[trigger] entries[i].0 != #[trigger] entries[j].0
}

/// A table held in memory, as the keys' characters with their kinds.
pub open spec fn table_view(table: Seq<(String, TokenType)>) -> Seq<(Seq<char>, TokenType)> {
    table.map_values(|e: (String, TokenType)| (e.0@, e.1))
}

/// In a table whose keys are distinct, the lookup finds exactly the entry that holds the key.
pub proof fn lemma_lookup_finds_entry(entries: Seq<(Seq<char>, TokenType)>, key: Seq<char>)
    requires
        keys_distinct(entries),
    ensures
        lookup(entries, key) is Some <==> exists|i: int| 0 <= i < entries.len() && entries[i].0 == key,
        forall|i: int| 0 <= i < entries.len() && entries[i].0 == key ==> lookup(entries, key) == Some(entries[i].1),
    decreases entries.len(),
{
    if entries.len() > 0 {
        let rest = entries.drop_first();
        assert(keys_distinct(rest)) by {
            assert forall|i: int, j: int| 0 <= i < j < rest.len() implies rest[i].0 != rest[j].0 by {
                assert(rest[i] == entries[i + 1] && rest[j] == entries[j + 1]);
            }
        }
        lemma_lookup_finds_entry(rest, key);
        if entries[0].0 != key {
            assert forall|i: int| 0 <= i < entries.len() && entries[i].0 == key implies
                1 <= i && rest[i - 1].0 == key by {}
            if exists|i: int| 0 <= i < entries.len() && entries[i].0 == key {
                let i = choose|i: int| 0 <= i < entries.len() && entries[i].0 == key;
                assert(rest[i - 1].0 == key);
            }
        }
    }
}

/// The keyword table's keys are distinct.
pub proof fn lemma_keywords_distinct()
    ensures
        keys_distinct(keyword_entries()),
{
    reveal_strlit("SELECT");
    reveal_strlit("FROM");
    reveal_strlit("WHERE");
    reveal_strlit("INSERT");
    reveal_strlit("INTO");
    reveal_strlit("VALUES");
    reveal_strlit("CREATE");
    reveal_strlit("TABLE");
    reveal_strlit("DELETE");
    reveal_strlit("UPDATE");
    reveal_strlit("SET");
    reveal_strlit("INT");
    reveal_strlit("AND");
    reveal_strlit("OR");
    let e = keyword_entries();
    assert forall|i: int, j: int| 0 <= i < j < e.len() implies #[trigger] e[i].0 != #[trigger] e[j].0 by {
        if e[i].0 == e[j].0 {
            assert(e[i].0.len() == e[j].0.len());
            assert(e[i].0[0] == e[j].0[0]);
            assert(e[i].0[1] == e[j].0[1]);
        }
    }
}

/// The operator table's keys are distinct.
pub proof fn lemma_operators_distinct()
    ensures
        keys_distinct(operator_entries()),
{
    reveal_strlit("=");
    reveal_strlit("!=");
    reveal_strlit("<");
    reveal_strlit(">");
    reveal_strlit("<=");
    reveal_strlit(">=");
    reveal_strlit("*");
    reveal_strlit(",");
    reveal_strlit(";");
    reveal_strlit("(");
    reveal_strlit(")");
    let e = operator_entries();
    assert forall|i: int, j: int| 0 <= i < j < e.len() implies #[trigger] e[i].0 != #[trigger] e[j].0 by {
        if e[i].0 == e[j].0 {
            assert(e[i].0.len() == e[j].0.len());
            assert(e[i].0[0] == e[j].0[0]);
        }
    }
}

/// Builds the keyword table.
pub fn keyword_table() -> (table: Vec<(String, TokenType)>)
    ensures
        table_view(table@) == keyword_entries(),
{
    let table = vec![
        (String::from_str("SELECT"), TokenType::Select),
        (String::from_str("FROM"), TokenType::From),
        (String::from_str("WHERE"), TokenType::Where),
        (String::from_str("INSERT"), TokenType::Insert),
        (String::from_str("INTO"), TokenType::Into),
        (String::from_str("VALUES"), TokenType::Values),
        (String::from_str("CREATE"), TokenType::Create),
        (String::from_str("TABLE"), TokenType::Table),
        (String::from_str("DELETE"), TokenType::Delete),
        (String::from_str("UPDATE"), TokenType::Update),
        (String::from_str("SET"), TokenType::SetKeyword),
        (String::from_str("INT"), TokenType::Int),
        (String::from_str("AND"), TokenType::And),
        (String::from_str("OR"), TokenType::Or),
    ];
    assert(table_view(table@) =~= keyword_entries());
    table
}

/// Builds the operator table.
pub fn operator_table() -> (table: Vec<(String, TokenType)>)
    ensures
        table_view(table@) == operator_entries(),
{
    let table = vec![
        (String::from_str("="), TokenType::Equal),
        (String::from_str("!="), TokenType::NotEqual),
        (String::from_str("<"), TokenType::LessThan),
        (String::from_str(">"), TokenType::GreaterThan),
        (String::from_str("<="), TokenType::LessThanEqual),
        (String::from_str(">="), TokenType::GreaterThanEqual),
        (String::from_str("*"), TokenType::Asterisk),
        (String::from_str(","), TokenType::Comma),
        (String::from_str(";"), TokenType::Semicolon),
        (String::from_str("("), TokenType::LeftParen),
        (String::from_str(")"), TokenType::RightParen),
    ];
    assert(table_view(table@) =~= operator_entries());
    table
}

/// The kind that the table gives to `key`: that of the first entry whose key it is.
pub fn table_get(table: &Vec<(String, TokenType)>, key: &String) -> (kind: Option<TokenType>)
    ensures
        kind == lookup(table_view(table@), key@),
{
    let ghost entries = table_view(table@);
    let mut i: usize = 0;
    assert(entries.skip(0) =~= entries);
    while i < table.len()
        invariant
            i <= table.len(),
            entries == table_view(table@),
            lookup(entries, key@) == lookup(entries.skip(i as int), key@),
        decreases table.len() - i,
    {
        let entry = &table[i];
        assert(entries.skip(i as int)[0] == (entry.0@, entry.1));
        if entry.0 == *key {
            return Some(entry.1);
        }
        assert(entries.skip(i as int).drop_first() =~= entries.skip(i + 1));
        i = i + 1;
    }
    None
}

} // verus!
