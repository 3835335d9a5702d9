# adf

Parsing of ADF 1.0 XML leads, verified with Verus.

- parses XML with `quick-xml`
- borrows input text where possible through `Cow<'a, str>`
- exposes a typed ADF model for common lead fields
- keeps unknown XML elements and attributes instead of discarding partner data
- keeps ADF-specific validation separate from XML parsing

```rust
let document = adf::parse(input)?;
let prospect = &document.adf().prospects[0];
assert_eq!(prospect.status.as_deref(), Some("new"));

for issue in document.validate().issues {
    eprintln!("{:?}: {}: {}", issue.severity, issue.path, issue.message);
}
```

## Layout

| Module | What it holds |
|--------|---------------|
| `options`, `error` | limits and how they are set; why a document is refused |
| `reader` | the XML reader of `quick-xml`, declared as a source of plain events |
| `text`, `lexical`, `declaration` | strings, characters, names, references, declared encodings |
| `document`, `tree`, `builder` | the XML tree and how it is built event by event |
| `model`, `convert` | the typed model and how it is read from the tree |
| `parse` | the entry points |
| `validate` | the checks that are specific to ADF |
| `order`, `content`, `limits`, `spans`, `written`, `kept`, `account`, `borrowing`, `ownership`, `references` | what holds of every parsed document |

`app/` reads documents from byte streams and records each parse through `tracing`.

## What is proved

Every function states its result exactly, over the characters of its arguments, but for
the errors of the XML reader and of attributes that some errors carry: of these nothing is
said. What the reads of a document give is a name (`reader::document_steps`), and so is what the
attributes of a tag are (`reader::tag_attributes`); everything behind them is spelled out
and proved. Functions whose names begin with `law_` state what holds of the library as a
whole: a tree gives back what the document consists of, keeps its limits, holds only
characters that XML allows, and has its elements in their places, where the text spells
them; the typed model holds every item as often as the document, white space between
elements aside, and owns a text only where it cannot be borrowed; options decide whether a document is accepted and nothing else; and a
document is valid if and only if it has a prospect.
