use volas::html::render_html;

const OPEN: &str = "<div>\n<style scoped>\n    .dataframe tbody tr th:only-of-type {\n        vertical-align: middle;\n    }\n\n    .dataframe tbody tr th {\n        vertical-align: top;\n    }\n\n    .dataframe thead th {\n        text-align: right;\n    }\n</style>\n<table border=\"1\" class=\"dataframe\">\n  <thead>\n    <tr style=\"text-align: right;\">\n      <th></th>\n";

fn strs(v: &[&str]) -> Vec<String> {
    v.iter().map(|s| s.to_string()).collect()
}

#[test]
fn html_table_of_one_cell() {
    let out = render_html(&strs(&["a<b"]), None, strs(&["0"]), vec![strs(&["1"])], false, 1);
    let want = format!(
        "{OPEN}      <th>a&lt;b</th>\n    </tr>\n  </thead>\n  <tbody>\n    <tr>\n      <th>0</th>\n      <td>1</td>\n    </tr>\n  </tbody>\n</table>\n</div>"
    );
    assert_eq!(out, want);
}

#[test]
fn html_table_named_index_and_truncation() {
    let out = render_html(&strs(&["v"]), Some("k"), strs(&["0", "99"]), vec![strs(&["1", "2"])], true, 100);
    let want = format!(
        "{OPEN}      <th>v</th>\n    </tr>\n    <tr>\n      <th>k</th>\n      <th></th>\n    </tr>\n  </thead>\n  <tbody>\n    <tr>\n      <th>0</th>\n      <td>1</td>\n    </tr>\n    <tr>\n      <th>...</th>\n      <td>...</td>\n    </tr>\n    <tr>\n      <th>99</th>\n      <td>2</td>\n    </tr>\n  </tbody>\n</table>\n<p>100 rows × 1 columns</p>\n</div>"
    );
    assert_eq!(out, want);
}
