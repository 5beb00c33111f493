# typstlab_typst

Support for working with Typst toolchains, written in Verus:

- converting the HTML of Typst's `docs.json` into Markdown pages
  (`html_to_mdast`, `render`, `table`, `compositor`, `composite`, `html_to_md`),
  with `/DOCS-BASE/` links rewritten to relative `.md` files (`links`);
- rendering function, type, category, group and symbol definitions
  (`render_func`, `render_bodies`, `details`, `json`, `schema`);
- mapping documentation routes to file paths inside a target directory
  (`route`) and writing each page with YAML frontmatter (`generate`);
- the manifest of a documentation cache (`manifest`), the URLs of the
  documentation sources (`github`, `docs_source`), and which members of a
  source archive become documentation files (`docs_source`);
- choosing the release asset for a platform and checking downloads
  (`install`), and resolving the Typst binary of a required version
  (`resolve`).

`src/` is the verified library. `app/` holds the I/O around it: HTTP
downloads, unpacking release archives, the file system, `serde` decoding
and running Typst.
