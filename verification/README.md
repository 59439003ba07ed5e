# webui

Template compilation pieces of the WebUI framework, verified with Verus.

- `src/protocol`: the protocol data model (fragments, conditions, routes,
  component data), reference validation, and the protobuf binary form. The
  codec is schema-driven: `schema` describes each message type, `wire` reads
  and writes varints, keys and fields, `decode` and `encode` work on message
  values of any type, `messages` and `convert` map the protocol types to
  message values, and `protobuf` puts it together. `round_trip` proves that
  decoding what the encoder wrote gives back the message.
- `src/parser`: the FAST conversion of templates (`fast`, `fast_plugin`),
  `<route>` directive parsing (`route_parser`), build strategies, fragment id
  generation and attribute rules of the directive parser (`directive`), the
  decisions for the attributes of a tag (`attribute_plan`), the `each`
  attribute of `<for>` (`for_directive`), bindings in HTML and CSS comments
  (`comments`), component template shaping (`component_template`), the
  HTML syntax tree from tree-sitter (`html_tree`) and what is read from it:
  element attributes and tag names, `<route>` elements with their nested
  routes, `<for>`/`<if>` heads, tag attributes, the stripping of runtime
  attributes (`elements`), and the CSS token list (`tokens`). `driver` holds
  the parser's walk: its state (pending raw text, fragment records, ids,
  tokens) and fragment stream, what it does with each child node, component
  and element openings with their attributes, `<route>`, `<if>` and `<for>`
  blocks, `<head>`/`<body>` signals, text and comment nodes, inline
  styles, and the building of component templates. What the condition,
  handlebars and CSS parsers make of their input comes in as an argument.
- `src/attrs.rs`: property and attribute name mapping.
- `app/`: protocol files, JSON inspection output through copies of the
  protocol types that carry serde's derives, the error and command-line
  option types that carry `thiserror` and `clap` derives.
