# fediiverse

The logic of the Fediiverse setup application for the Nintendo 3DS, as a
verified library: reading the setup QR code (`fediiverse;<setup host>;<token>`),
converting camera frames from RGB565 to RGBA8, deciding how often a frame is
searched, the URL the OLV certificate is fetched from, and the bytes of OLV's
`largeStorage.bin` holding the token.

- `src/` is the library, proved with Verus.
- `tests/` runs it on concrete values.
- `app/` is the 3DS program around it: services, camera, drawing, files, network.
