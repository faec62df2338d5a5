//! The tools of the toolbox: their conversion logic, and the vocabulary that
//! the terminal interface shares between them.
use vstd::prelude::*;

pub mod base64_encoder;
pub mod color_converter;
pub mod cron_parser;
pub mod hash_generator;
pub mod html_entities;
pub mod ipv4_subnet;
pub mod json_formatter;
pub mod json_yaml_converter;
pub mod keys;
pub mod jwt_parser;
pub mod mac_generator;
pub mod number_base;
pub mod number_base_converter;
pub mod url_encoder;
pub mod url_parser;
pub mod regex_tester;
pub mod text_case_converter;
pub mod text_stats;

verus! {

/// The groups in which the tool list can be filtered.
#[derive(Clone, Copy, Debug, PartialEq, Eq, Structural)]
pub enum Category {
    All,
    Converter,
    Crypto,
    Text,
    Network,
    Development,
    Generator,
}

/// The label shown for each category.
pub open spec fn category_label(c: Category) -> Seq<char> {
    match c {
        Category::All => "All Tools"@,
        Category::Converter => "Converter"@,
        Category::Crypto => "Crypto"@,
        Category::Text => "Text"@,
        Category::Network => "Network"@,
        Category::Development => "Development"@,
        Category::Generator => "Generator"@,
    }
}

/// Every category, in the order in which the interface offers them.
pub open spec fn category_order() -> Seq<Category> {
    seq![
        Category::All,
        Category::Converter,
        Category::Crypto,
        Category::Text,
        Category::Network,
        Category::Development,
        Category::Generator,
    ]
}

impl Category {
    pub fn name(self) -> (res: &'static str)
        ensures
            res@ == category_label(self),
    {
        match self {
            Category::All => "All Tools",
            Category::Converter => "Converter",
            Category::Crypto => "Crypto",
            Category::Text => "Text",
            Category::Network => "Network",
            Category::Development => "Development",
            Category::Generator => "Generator",
        }
    }

    pub fn all() -> (res: &'static [Category])
        ensures
            res@ == category_order(),
    {
        &[
            Category::All,
            Category::Converter,
            Category::Crypto,
            Category::Text,
            Category::Network,
            Category::Development,
            Category::Generator,
        ]
    }
}

/// Every category is offered exactly once, and no two share a label.
pub proof fn categories_listed_once(c: Category, d: Category)
    ensures
        category_order().contains(c),
        category_order().no_duplicates(),
        category_label(c) == category_label(d) ==> c == d,
{
    reveal_strlit("All Tools");
    reveal_strlit("Converter");
    reveal_strlit("Crypto");
    reveal_strlit("Text");
    reveal_strlit("Network");
    reveal_strlit("Development");
    reveal_strlit("Generator");
    let o = category_order();
    match c {
        Category::All => assert(o[0] == c),
        Category::Converter => assert(o[1] == c),
        Category::Crypto => assert(o[2] == c),
        Category::Text => assert(o[3] == c),
        Category::Network => assert(o[4] == c),
        Category::Development => assert(o[5] == c),
        Category::Generator => assert(o[6] == c),
    }
    if category_label(c) == category_label(d) && c != d {
        assert(category_label(c).len() != category_label(d).len() || category_label(c)[0] != category_label(d)[0]
            || category_label(c)[1] != category_label(d)[1]);
    }
}

/// What the tool list shows of a tool and searches in.
pub struct ToolMeta {
    pub id: &'static str,
    pub name: &'static str,
    pub category: Category,
    pub description: &'static str,
    pub keywords: &'static [&'static str],
}

/// What a tool asks of the application after handling a key.
pub enum Action {
    Noop,
    Back,
    Status(String),
}

} // verus!
