//! The `add` command and the decisions taken from its arguments.

use crate::error::AddError;
use crate::selection::{Prompt, PromptView};
use crate::source;
use crate::source::ComponentSource;
use crate::text;
use vstd::prelude::*;
use vstd::string::*;

verus! {

/// The arguments of the `add` command.
#[derive(Debug)]
pub struct AddCommand {
    /// Source to the component. Can be one of a local path, a HTTP URL or a registry reference.
    pub source: String,
    /// Sha256 digest that will be used to verify HTTP downloads. Required for HTTP sources,
    /// ignored otherwise.
    pub digest: Option<String>,
    /// Registry to override the default with. Ignored in the cases of local or HTTP sources.
    pub registry: Option<String>,
    /// The Spin component to add the dependency to. If omitted, it is prompted for.
    pub add_to_component: Option<String>,
    /// The path to the manifest. This can be a file or directory. The default is 'spin.toml'.
    pub manifest_path: Option<String>,
}

/// How the component to add the dependency to is found.
#[derive(Debug)]
pub enum TargetComponent {
    /// It was named.
    Known(String),
    /// The user has to be asked.
    Ask,
}

impl AddCommand {
    /// Finds out what the source is. `path_exists` tells whether it is the path of something that
    /// exists.
    pub fn component_source(&self, path_exists: bool) -> (r: Result<ComponentSource, AddError>)
        ensures
            source::source_view(r) == source::inferred_source(
                self.source@,
                path_exists,
                text::opt_text(self.digest),
                text::opt_text(self.registry),
            ),
            r matches Ok(ComponentSource::Http(c)) ==> "http"@.is_prefix_of(c.url@),
            !path_exists && source::has_package_namespace(self.source@) ==> source::source_view(r)
                == source::source_from_parts(
                self.source@,
                false,
                None,
                source::parsed_package_name(self.source@),
                None,
                text::opt_text(self.registry),
            ),
    {
        ComponentSource::infer_source(&self.source, path_exists, &self.digest, &self.registry)
    }

    /// The component to add the dependency to, or that it has to be asked for.
    pub fn target_component(&self) -> (r: TargetComponent)
        ensures
            match r {
                TargetComponent::Known(id) => text::opt_text(self.add_to_component) == Some(id@),
                TargetComponent::Ask => self.add_to_component is None,
            },
    {
        match &self.add_to_component {
            Some(id) => TargetComponent::Known(id.clone()),
            None => TargetComponent::Ask,
        }
    }
}

/// The question for the component to add the dependency to, with the components of the manifest
/// as options.
pub fn component_prompt(component_ids: &Vec<String>) -> (r: Prompt)
    ensures
        r@ == (PromptView {
            message: "Select a component to add the dependency to"@,
            options: text::texts(component_ids@),
            default: None,
        }),
{
    Prompt {
        message: "Select a component to add the dependency to".to_owned(),
        options: text::copy_texts(component_ids),
        default: None,
    }
}

/// What the world of a component is named once it imports what it exported.
pub fn dependency_world_name() -> (r: String)
    ensures
        r@ == "dependency-world"@,
{
    "dependency-world".to_owned()
}

/// The component that the user has chosen.
pub fn chosen_component(component_ids: &Vec<String>, index: usize) -> (r: String)
    requires
        index < component_ids@.len(),
    ensures
        r@ == component_ids@[index as int]@,
{
    component_ids[index].clone()
}

} // verus!
