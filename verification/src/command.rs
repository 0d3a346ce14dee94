//! Command records: what the palette searches and what a selection stands
//! for. The engine only reads a command's text fields; the payload is the
//! caller's and is handed back untouched.

use vstd::prelude::*;

verus! {

/// Unique identifier for a command.
pub type CommandId = &'static str;

/// Category for grouping commands.
#[derive(Debug, Clone, Copy, PartialEq, Eq, Hash)]
pub struct Category {
    /// Unique identifier for the category.
    pub id: CommandId,
    /// Display name.
    pub name: &'static str,
    /// Sort order (lower = first).
    pub order: u32,
}

impl Category {
    /// Creates a new category.
    pub fn new(id: &'static str, name: &'static str, order: u32) -> (r: Self)
        ensures
            r.id == id,
            r.name == name,
            r.order == order,
    {
        Category { id, name, order }
    }
}

/// How a command produces its outcome: a message of the caller's choosing,
/// or a nested command list.
pub enum CommandAction<Message> {
    /// Produce a specific message.
    Message(Message),
    /// Open a submenu of nested commands.
    Submenu(Vec<Command<Message>>),
}

/// A command that can be searched and selected from the palette: its
/// searchable text fields, and an opaque action the engine never inspects.
pub struct Command<Message> {
    /// Unique identifier.
    pub id: CommandId,
    /// Display name shown in the palette; matched first.
    pub name: String,
    /// Optional description, matched after the name.
    pub description: Option<String>,
    /// Category for grouping.
    pub category: Option<&'static str>,
    /// Keywords for improved search (not displayed), matched last.
    pub keywords: Vec<String>,
    /// Whether the command is currently enabled.
    pub enabled: bool,
    /// What selecting the command does.
    pub action: CommandAction<Message>,
}

impl<Message> Command<Message> {
    /// Creates a new command.
    pub fn new(id: CommandId, name: String, action: CommandAction<Message>) -> (r: Self)
        ensures
            r.id == id,
            r.name == name,
            r.description is None,
            r.category is None,
            r.keywords@ =~= Seq::<String>::empty(),
            r.enabled == true,
            r.action == action,
    {
        Command {
            id,
            name,
            description: None,
            category: None,
            keywords: Vec::new(),
            enabled: true,
            action,
        }
    }
}

/// Builder for ergonomic command creation.
pub struct CommandBuilder<Message> {
    pub id: CommandId,
    pub name: String,
    pub description: Option<String>,
    pub category: Option<&'static str>,
    pub keywords: Vec<String>,
    pub enabled: bool,
    pub marker: core::marker::PhantomData<Message>,
}

impl<Message> CommandBuilder<Message> {
    /// Creates a new command builder.
    pub fn new(id: CommandId, name: String) -> (r: Self)
        ensures
            r.id == id,
            r.name == name,
            r.description is None,
            r.category is None,
            r.keywords@ =~= Seq::<String>::empty(),
            r.enabled == true,
    {
        CommandBuilder {
            id,
            name,
            description: None,
            category: None,
            keywords: Vec::new(),
            enabled: true,
            marker: core::marker::PhantomData,
        }
    }

    /// Sets the description.
    pub fn description(self, desc: String) -> (r: Self)
        ensures
            r == (CommandBuilder { description: Some(desc), ..self }),
    {
        CommandBuilder { description: Some(desc), ..self }
    }

    /// Sets the category.
    pub fn category(self, category: &'static str) -> (r: Self)
        ensures
            r == (CommandBuilder { category: Some(category), ..self }),
    {
        CommandBuilder { category: Some(category), ..self }
    }

    /// Adds a keyword for search.
    pub fn keyword(self, keyword: String) -> (r: Self)
        ensures
            r.keywords@ == self.keywords@.push(keyword),
            r == (CommandBuilder { keywords: r.keywords, ..self }),
    {
        let mut keywords = self.keywords;
        keywords.push(keyword);
        CommandBuilder { keywords, ..self }
    }

    /// Adds multiple keywords.
    pub fn keywords(self, keywords: Vec<String>) -> (r: Self)
        ensures
            r.keywords@ == self.keywords@ + keywords@,
            r == (CommandBuilder { keywords: r.keywords, ..self }),
    {
        let mut all = self.keywords;
        let mut rest = keywords;
        all.append(&mut rest);
        CommandBuilder { keywords: all, ..self }
    }

    /// Sets whether the command is enabled.
    pub fn enabled(self, enabled: bool) -> (r: Self)
        ensures
            r == (CommandBuilder { enabled, ..self }),
    {
        CommandBuilder { enabled, ..self }
    }

    /// Builds the command with a message action.
    pub fn action(self, message: Message) -> (r: Command<Message>)
        ensures
            r.id == self.id,
            r.name == self.name,
            r.description == self.description,
            r.category == self.category,
            r.keywords == self.keywords,
            r.enabled == self.enabled,
            r.action == CommandAction::Message(message),
    {
        Command {
            id: self.id,
            name: self.name,
            description: self.description,
            category: self.category,
            keywords: self.keywords,
            enabled: self.enabled,
            action: CommandAction::Message(message),
        }
    }

    /// Builds the command with a submenu.
    pub fn submenu(self, commands: Vec<Command<Message>>) -> (r: Command<Message>)
        ensures
            r.id == self.id,
            r.name == self.name,
            r.description == self.description,
            r.category == self.category,
            r.keywords == self.keywords,
            r.enabled == self.enabled,
            r.action == CommandAction::Submenu(commands),
    {
        Command {
            id: self.id,
            name: self.name,
            description: self.description,
            category: self.category,
            keywords: self.keywords,
            enabled: self.enabled,
            action: CommandAction::Submenu(commands),
        }
    }
}

/// Creates a new command builder.
pub fn command<Message>(id: CommandId, name: String) -> (r: CommandBuilder<Message>)
    ensures
        r.id == id,
        r.name == name,
        r.description is None,
        r.category is None,
        r.keywords@ =~= Seq::<String>::empty(),
        r.enabled == true,
{
    CommandBuilder::new(id, name)
}

} // verus!
