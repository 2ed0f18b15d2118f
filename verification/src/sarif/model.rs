//! The parts of a SARIF log.

use crate::diag::DiagnosticCode;
use crate::krate_graph::clone_opt;
use crate::sarif::fingerprints::Fingerprints;
use vstd::prelude::*;

verus! {

/// A message, as plain text and as markdown.
#[derive(Debug)]
pub struct Message {
    pub text: String,
    pub markdown: Option<String>,
}

/// The values in a `Message`.
pub struct MessageParts {
    pub text: Seq<char>,
    pub markdown: Option<Seq<char>>,
}

impl View for Message {
    type V = MessageParts;

    open spec fn view(&self) -> MessageParts {
        MessageParts { text: self.text@, markdown: opt_text(self.markdown) }
    }
}

/// The characters of a text that may be missing.
pub open spec fn opt_text(s: Option<String>) -> Option<Seq<char>> {
    match s {
        Some(s) => Some(s@),
        None => None,
    }
}

impl Message {
    /// A message without markdown.
    pub fn text(text: String) -> (message: Message)
        ensures
            message.text == text,
            message.markdown is None,
    {
        Message { text, markdown: None }
    }

    /// A message with markdown.
    pub fn with_markdown(text: String, markdown: Option<String>) -> (message: Message)
        ensures
            message.text == text,
            message.markdown == markdown,
    {
        Message { text, markdown }
    }
}

impl Clone for Message {
    fn clone(&self) -> (message: Message)
        ensures
            message == *self,
    {
        Message { text: self.text.clone(), markdown: clone_opt(&self.markdown) }
    }
}

/// Where a file is.
#[derive(Debug)]
pub struct ArtifactLocation {
    pub uri: String,
}

/// A part of a file.
#[derive(Debug)]
pub struct Region {
    pub start_line: usize,
    pub byte_offset: usize,
    pub byte_length: usize,
    pub snippet: Option<String>,
    pub message: Option<Message>,
}

/// A part of a file, and where the file is.
#[derive(Debug)]
pub struct PhysicalLocation {
    pub artifact_location: ArtifactLocation,
    pub region: Region,
}

/// A location of a result.
#[derive(Debug)]
pub struct Location {
    pub physical_location: PhysicalLocation,
}

/// The values in a `Location`.
pub struct Place {
    pub uri: Seq<char>,
    pub start_line: usize,
    pub byte_offset: usize,
    pub byte_length: usize,
    pub snippet: Option<Seq<char>>,
    pub message: Option<MessageParts>,
}

impl View for Location {
    type V = Place;

    open spec fn view(&self) -> Place {
        let region = self.physical_location.region;
        Place {
            uri: self.physical_location.artifact_location.uri@,
            start_line: region.start_line,
            byte_offset: region.byte_offset,
            byte_length: region.byte_length,
            snippet: opt_text(region.snippet),
            message: match region.message {
                Some(message) => Some(message@),
                None => None,
            },
        }
    }
}

/// The values in a list of locations.
pub open spec fn places_of(locations: Seq<Location>) -> Seq<Place> {
    Seq::new(locations.len(), |i: int| locations[i]@)
}

/// A place at the start of a file.
pub open spec fn whole_file(uri: Seq<char>, message: Seq<char>) -> Place {
    Place {
        uri,
        start_line: 1,
        byte_offset: 0,
        byte_length: 0,
        snippet: None,
        message: Some(MessageParts { text: message, markdown: None }),
    }
}

impl Location {
    /// A location at the start of a file.
    pub(crate) fn of_file(uri: String, message: &str) -> (location: Location)
        ensures
            location@ == whole_file(uri@, message@),
            location.wf(),
    {
        Location {
            physical_location: PhysicalLocation {
                artifact_location: ArtifactLocation { uri },
                region: Region {
                    start_line: 1,
                    byte_offset: 0,
                    byte_length: 0,
                    snippet: None,
                    message: Some(Message::text(message.to_owned())),
                },
            },
        }
    }

    /// Whether the end of the region is a position in a file.
    pub open spec fn wf(self) -> bool {
        self.physical_location.region.byte_offset + self.physical_location.region.byte_length
            <= usize::MAX
    }
}

impl Clone for Location {
    fn clone(&self) -> (location: Location)
        ensures
            location == *self,
    {
        let region = &self.physical_location.region;
        let message = match &region.message {
            Some(message) => Some(message.clone()),
            None => None,
        };
        Location {
            physical_location: PhysicalLocation {
                artifact_location: ArtifactLocation {
                    uri: self.physical_location.artifact_location.uri.clone(),
                },
                region: Region {
                    start_line: region.start_line,
                    byte_offset: region.byte_offset,
                    byte_length: region.byte_length,
                    snippet: clone_opt(&region.snippet),
                    message,
                },
            },
        }
    }
}

/// A text.
#[derive(Debug)]
pub struct TextContent {
    pub text: String,
}

/// How a rule is configured unless it is configured otherwise.
#[derive(Debug)]
pub struct DefaultConfiguration {
    pub level: String,
}

/// The code that a rule is explained by.
#[derive(Debug)]
pub struct Help(pub DiagnosticCode);

/// Further properties of a rule.
#[derive(Debug)]
pub struct RuleProperties {
    pub tags: &'static [&'static str],
    pub precision: &'static str,
    pub problem_severity: &'static str,
}

/// A rule that results refer to.
#[derive(Debug)]
pub struct Rule {
    pub id: String,
    pub name: String,
    pub short_description: TextContent,
    pub full_description: TextContent,
    pub default_configuration: DefaultConfiguration,
    pub help: Help,
    pub properties: RuleProperties,
}

/// The tool that wrote a log, with its rules.
#[derive(Debug)]
pub struct Driver {
    pub rules: Vec<Rule>,
    pub version: Option<String>,
}

/// What wrote a log.
#[derive(Debug)]
pub struct Tool {
    pub driver: Driver,
}

/// A result.
#[derive(Debug)]
pub struct SarifResult {
    pub rule_id: String,
    pub message: Message,
    pub level: &'static str,
    pub locations: Vec<Location>,
    pub partial_fingerprints: Fingerprints,
}

/// The results of a tool.
#[derive(Debug)]
pub struct Run {
    pub tool: Tool,
    pub results: Vec<SarifResult>,
}

/// A log.
#[derive(Debug)]
pub struct SarifLog {
    pub runs: Vec<Run>,
}

} // verus!
