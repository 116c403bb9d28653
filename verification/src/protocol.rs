//! The record of a discovered prompt, as it is handed to callers.

use vstd::prelude::*;
use std::path::PathBuf;
use crate::text::optional_text;

verus! {

/// A path of the file system. The library carries paths along and never
/// looks inside one.
#[verifier::external_type_specification]
#[verifier::external_body]
pub struct ExPathBuf(std::path::PathBuf);

/// `PathBuf::clone` gives a path equal to the one it was called on.
pub assume_specification[ <PathBuf as Clone>::clone ](path: &PathBuf) -> (r: PathBuf)
    ensures
        r == *path,
;

/// One discovered prompt.
#[derive(Debug, Clone)]
pub struct CustomPrompt {
    /// `command`, or `directory:command` for a prompt of a subdirectory.
    pub name: String,
    /// Where the file is.
    pub path: PathBuf,
    /// The file's text without its metadata block.
    pub content: String,
    /// The subdirectory the file was found in.
    pub category: Option<String>,
    /// The field `argument-hint` of the metadata block.
    pub argument_hint: Option<String>,
    /// The field `description` of the metadata block.
    pub description: Option<String>,
    /// The arguments that the body's placeholders take. Discovery leaves
    /// this empty.
    pub template_args: Option<Vec<TemplateArg>>,
    /// The placeholder syntax of the body. Discovery leaves this empty.
    pub template_syntax: Option<TemplateSyntax>,
}

/// One argument of a prompt's template.
#[derive(Debug, Clone)]
pub struct TemplateArg {
    pub name: String,
    pub description: Option<String>,
    pub required: bool,
    pub default_value: Option<String>,
}

/// The placeholder syntax that a prompt record declares.
#[derive(Debug, Clone, Copy)]
pub enum TemplateSyntax {
    Simple,
    Askama,
}

/// A template argument with its strings as character sequences.
pub struct TemplateArgView {
    pub name: Seq<char>,
    pub description: Option<Seq<char>>,
    pub required: bool,
    pub default_value: Option<Seq<char>>,
}

impl View for TemplateArg {
    type V = TemplateArgView;

    open spec fn view(&self) -> TemplateArgView {
        TemplateArgView {
            name: self.name@,
            description: optional_text(self.description),
            required: self.required,
            default_value: optional_text(self.default_value),
        }
    }
}

/// A prompt record with its strings as character sequences.
pub struct PromptView {
    pub name: Seq<char>,
    pub path: PathBuf,
    pub content: Seq<char>,
    pub category: Option<Seq<char>>,
    pub argument_hint: Option<Seq<char>>,
    pub description: Option<Seq<char>>,
    pub template_args: Option<Seq<TemplateArgView>>,
    pub template_syntax: Option<TemplateSyntax>,
}

impl View for CustomPrompt {
    type V = PromptView;

    open spec fn view(&self) -> PromptView {
        PromptView {
            name: self.name@,
            path: self.path,
            content: self.content@,
            category: optional_text(self.category),
            argument_hint: optional_text(self.argument_hint),
            description: optional_text(self.description),
            template_args: match self.template_args {
                Some(args) => Some(Seq::new(args@.len(), |i: int| args@[i]@)),
                None => None,
            },
            template_syntax: self.template_syntax,
        }
    }
}

/// The views of `prompts`, in order.
pub open spec fn views(prompts: Seq<CustomPrompt>) -> Seq<PromptView> {
    Seq::new(prompts.len(), |i: int| prompts[i]@)
}

} // verus!
