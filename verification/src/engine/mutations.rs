//! The mutations that every language shares.

use crate::types::mutation::{Mutation, MutationSeverity};
use vstd::prelude::*;

verus! {

/// The descriptors of the shared mutations, in the order in which a
/// rulebook applies them.
pub open spec fn common_table() -> Seq<Mutation> {
    seq![
        Mutation {
            slug: "ER",
            description: "Replace a statement with one that raises an error",
            severity: MutationSeverity::High,
        },
        Mutation {
            slug: "CR",
            description: "Comment out a statement",
            severity: MutationSeverity::Low,
        },
        Mutation {
            slug: "IF",
            description: "Replace the condition of an if with false",
            severity: MutationSeverity::Medium,
        },
        Mutation {
            slug: "IT",
            description: "Replace the condition of an if with true",
            severity: MutationSeverity::Medium,
        },
        Mutation {
            slug: "WF",
            description: "Replace the condition of a while with false",
            severity: MutationSeverity::Medium,
        },
        Mutation {
            slug: "AS",
            description: "Swap two neighbouring arguments of a call",
            severity: MutationSeverity::Low,
        },
        Mutation {
            slug: "AOS",
            description: "Replace an arithmetic operator with another",
            severity: MutationSeverity::Low,
        },
        Mutation {
            slug: "AAOS",
            description: "Replace an arithmetic assignment operator with another",
            severity: MutationSeverity::Low,
        },
        Mutation {
            slug: "BOS",
            description: "Replace a bitwise operator with another",
            severity: MutationSeverity::Low,
        },
        Mutation {
            slug: "BAOS",
            description: "Replace a bitwise assignment operator with another",
            severity: MutationSeverity::Low,
        },
        Mutation {
            slug: "BL",
            description: "Flip a boolean literal",
            severity: MutationSeverity::Low,
        },
        Mutation {
            slug: "COS",
            description: "Replace a comparison operator with another",
            severity: MutationSeverity::Low,
        },
        Mutation {
            slug: "LOS",
            description: "Replace a logical operator with another",
            severity: MutationSeverity::Low,
        },
        Mutation {
            slug: "SOS",
            description: "Replace a shift operator with another",
            severity: MutationSeverity::Low,
        },
        Mutation {
            slug: "SAOS",
            description: "Replace a shift assignment operator with another",
            severity: MutationSeverity::Low,
        },
        Mutation {
            slug: "LC",
            description: "Swap break and continue",
            severity: MutationSeverity::Medium,
        },
    ]
}

/// The descriptors of the shared mutations.
pub fn common_mutations() -> (r: Vec<Mutation>)
    ensures
        r@ == common_table(),
{
    let r = vec![
        Mutation {
            slug: "ER",
            description: "Replace a statement with one that raises an error",
            severity: MutationSeverity::High,
        },
        Mutation {
            slug: "CR",
            description: "Comment out a statement",
            severity: MutationSeverity::Low,
        },
        Mutation {
            slug: "IF",
            description: "Replace the condition of an if with false",
            severity: MutationSeverity::Medium,
        },
        Mutation {
            slug: "IT",
            description: "Replace the condition of an if with true",
            severity: MutationSeverity::Medium,
        },
        Mutation {
            slug: "WF",
            description: "Replace the condition of a while with false",
            severity: MutationSeverity::Medium,
        },
        Mutation {
            slug: "AS",
            description: "Swap two neighbouring arguments of a call",
            severity: MutationSeverity::Low,
        },
        Mutation {
            slug: "AOS",
            description: "Replace an arithmetic operator with another",
            severity: MutationSeverity::Low,
        },
        Mutation {
            slug: "AAOS",
            description: "Replace an arithmetic assignment operator with another",
            severity: MutationSeverity::Low,
        },
        Mutation {
            slug: "BOS",
            description: "Replace a bitwise operator with another",
            severity: MutationSeverity::Low,
        },
        Mutation {
            slug: "BAOS",
            description: "Replace a bitwise assignment operator with another",
            severity: MutationSeverity::Low,
        },
        Mutation {
            slug: "BL",
            description: "Flip a boolean literal",
            severity: MutationSeverity::Low,
        },
        Mutation {
            slug: "COS",
            description: "Replace a comparison operator with another",
            severity: MutationSeverity::Low,
        },
        Mutation {
            slug: "LOS",
            description: "Replace a logical operator with another",
            severity: MutationSeverity::Low,
        },
        Mutation {
            slug: "SOS",
            description: "Replace a shift operator with another",
            severity: MutationSeverity::Low,
        },
        Mutation {
            slug: "SAOS",
            description: "Replace a shift assignment operator with another",
            severity: MutationSeverity::Low,
        },
        Mutation {
            slug: "LC",
            description: "Swap break and continue",
            severity: MutationSeverity::Medium,
        },
    ];
    assert(r@ =~= common_table());
    r
}

/// A number that tells the slugs of up to four upper-case letters apart:
/// the letters as the digits of a number.
pub open spec fn slug_code(slug: Seq<char>) -> int {
    let a = if slug.len() > 0 { slug[0] as int } else { 0 };
    let b = if slug.len() > 1 { slug[1] as int } else { 0 };
    let c = if slug.len() > 2 { slug[2] as int } else { 0 };
    let d = if slug.len() > 3 { slug[3] as int } else { 0 };
    ((a * 256 + b) * 256 + c) * 256 + d
}

/// The codes of the shared slugs, in the order of the table.
pub open spec fn common_codes() -> Seq<int> {
    seq![
        slug_code("ER"@),
        slug_code("CR"@),
        slug_code("IF"@),
        slug_code("IT"@),
        slug_code("WF"@),
        slug_code("AS"@),
        slug_code("AOS"@),
        slug_code("AAOS"@),
        slug_code("BOS"@),
        slug_code("BAOS"@),
        slug_code("BL"@),
        slug_code("COS"@),
        slug_code("LOS"@),
        slug_code("SOS"@),
        slug_code("SAOS"@),
        slug_code("LC"@),
    ]
}

/// The codes of the shared slugs as numbers.
pub proof fn lemma_common_codes()
    ensures
        common_codes() == seq![
            1163001856int,
            1129447424,
            1229324288,
            1230241792,
            1464205312,
            1095958528,
            1095717632,
            1094799187,
            1112494848,
            1111576403,
            1112276992,
            1129272064,
            1280267008,
            1397707520,
            1396789075,
            1279459328,
        ],
{
    reveal_strlit("ER");
    reveal_strlit("CR");
    reveal_strlit("IF");
    reveal_strlit("IT");
    reveal_strlit("WF");
    reveal_strlit("AS");
    reveal_strlit("AOS");
    reveal_strlit("AAOS");
    reveal_strlit("BOS");
    reveal_strlit("BAOS");
    reveal_strlit("BL");
    reveal_strlit("COS");
    reveal_strlit("LOS");
    reveal_strlit("SOS");
    reveal_strlit("SAOS");
    reveal_strlit("LC");
    assert(slug_code("ER"@) == 1163001856) by {
        assert("ER"@.len() == 2 && "ER"@[0] == 'E' && "ER"@[1] == 'R');
    }
    assert(slug_code("CR"@) == 1129447424) by {
        assert("CR"@.len() == 2 && "CR"@[0] == 'C' && "CR"@[1] == 'R');
    }
    assert(slug_code("IF"@) == 1229324288) by {
        assert("IF"@.len() == 2 && "IF"@[0] == 'I' && "IF"@[1] == 'F');
    }
    assert(slug_code("IT"@) == 1230241792) by {
        assert("IT"@.len() == 2 && "IT"@[0] == 'I' && "IT"@[1] == 'T');
    }
    assert(slug_code("WF"@) == 1464205312) by {
        assert("WF"@.len() == 2 && "WF"@[0] == 'W' && "WF"@[1] == 'F');
    }
    assert(slug_code("AS"@) == 1095958528) by {
        assert("AS"@.len() == 2 && "AS"@[0] == 'A' && "AS"@[1] == 'S');
    }
    assert(slug_code("AOS"@) == 1095717632) by {
        assert("AOS"@.len() == 3 && "AOS"@[0] == 'A' && "AOS"@[1] == 'O' && "AOS"@[2] == 'S');
    }
    assert(slug_code("AAOS"@) == 1094799187) by {
        assert("AAOS"@.len() == 4 && "AAOS"@[0] == 'A' && "AAOS"@[1] == 'A' && "AAOS"@[2] == 'O'
            && "AAOS"@[3] == 'S');
    }
    assert(slug_code("BOS"@) == 1112494848) by {
        assert("BOS"@.len() == 3 && "BOS"@[0] == 'B' && "BOS"@[1] == 'O' && "BOS"@[2] == 'S');
    }
    assert(slug_code("BAOS"@) == 1111576403) by {
        assert("BAOS"@.len() == 4 && "BAOS"@[0] == 'B' && "BAOS"@[1] == 'A' && "BAOS"@[2] == 'O'
            && "BAOS"@[3] == 'S');
    }
    assert(slug_code("BL"@) == 1112276992) by {
        assert("BL"@.len() == 2 && "BL"@[0] == 'B' && "BL"@[1] == 'L');
    }
    assert(slug_code("COS"@) == 1129272064) by {
        assert("COS"@.len() == 3 && "COS"@[0] == 'C' && "COS"@[1] == 'O' && "COS"@[2] == 'S');
    }
    assert(slug_code("LOS"@) == 1280267008) by {
        assert("LOS"@.len() == 3 && "LOS"@[0] == 'L' && "LOS"@[1] == 'O' && "LOS"@[2] == 'S');
    }
    assert(slug_code("SOS"@) == 1397707520) by {
        assert("SOS"@.len() == 3 && "SOS"@[0] == 'S' && "SOS"@[1] == 'O' && "SOS"@[2] == 'S');
    }
    assert(slug_code("SAOS"@) == 1396789075) by {
        assert("SAOS"@.len() == 4 && "SAOS"@[0] == 'S' && "SAOS"@[1] == 'A' && "SAOS"@[2] == 'O'
            && "SAOS"@[3] == 'S');
    }
    assert(slug_code("LC"@) == 1279459328) by {
        assert("LC"@.len() == 2 && "LC"@[0] == 'L' && "LC"@[1] == 'C');
    }
}

/// No two shared mutations have the same slug.
pub proof fn lemma_common_slugs_unique()
    ensures
        crate::types::mutation::slugs_unique(common_table()),
{
    lemma_common_codes();
    let table = common_table();
    let codes = common_codes();
    assert forall|i: int, j: int| 0 <= i < j < table.len() implies (#[trigger] table[i]).slug@ != (
    #[trigger] table[j]).slug@ by {
        assert(slug_code(table[i].slug@) == codes[i]);
        assert(slug_code(table[j].slug@) == codes[j]);
        assert(codes[i] != codes[j]);
    }
}

} // verus!
